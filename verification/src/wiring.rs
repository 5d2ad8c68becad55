//! Checking the names of a circuit and binding its inputs to outputs.

use crate::netlist::{
    all_resolved, binds, described, is_dangling, is_first_dangling, is_first_repeat, names_output,
    repeats_id, resolves, slot_before, unique_ids, Slot,
};
use crate::ports::{Id, Input, OutputType, Ports};
use vstd::prelude::*;

verus! {

/// The first component that has the name of a component before it, if
/// there is one.
pub fn find_duplicate(ids: &Vec<Id>, ports: &Vec<Ports>) -> (r: Option<usize>)
    requires
        ids@.len() == ports@.len(),
    ensures
        match r {
            Some(j) => is_first_repeat(described(ids@, ports@), j as int),
            None => unique_ids(described(ids@, ports@)),
        },
{
    let ghost net = described(ids@, ports@);
    let mut j: usize = 0;
    while j < ids.len()
        invariant
            net == described(ids@, ports@),
            j <= ids@.len(),
            forall|earlier: int| 0 <= earlier < j ==> !repeats_id(net, earlier),
        decreases ids@.len() - j,
    {
        let mut i: usize = 0;
        while i < j
            invariant
                net == described(ids@, ports@),
                i <= j < ids@.len(),
                forall|earlier: int| 0 <= earlier < j ==> !repeats_id(net, earlier),
                forall|e: int| 0 <= e < i ==> (#[trigger] net[e]).id != net[j as int].id,
            decreases j - i,
        {
            if ids[i] == ids[j] {
                assert(net[i as int].id == net[j as int].id);
                return Some(j);
            }
            i += 1;
        }
        j += 1;
    }
    assert forall|a: int, b: int| 0 <= a < b < net.len() implies net[a].id != net[b].id by {
        assert(!repeats_id(net, b));
    }
    None
}

/// The first output of one component that has the name `field`, if there is
/// one.
fn find_output(outputs: &Vec<Id>, field: &Id) -> (r: Option<usize>)
    ensures
        match r {
            Some(p) => p < outputs@.len() && outputs@[p as int]@ == field@ && forall|e: int|
                0 <= e < p ==> (#[trigger] outputs@[e])@ != field@,
            None => forall|e: int| 0 <= e < outputs@.len() ==> (#[trigger] outputs@[e])@ != field@,
        },
{
    let mut p: usize = 0;
    while p < outputs.len()
        invariant
            p <= outputs@.len(),
            forall|e: int| 0 <= e < p ==> (#[trigger] outputs@[e])@ != field@,
        decreases outputs@.len() - p,
    {
        if outputs[p] == *field {
            return Some(p);
        }
        p += 1;
    }
    None
}

/// The output that `input` is bound to, if the circuit has one of that name.
pub fn resolve(ids: &Vec<Id>, ports: &Vec<Ports>, input: &Input) -> (r: Option<Slot>)
    requires
        ids@.len() == ports@.len(),
    ensures
        match r {
            Some(slot) => binds(described(ids@, ports@), input@, slot),
            None => !resolves(described(ids@, ports@), input@),
        },
{
    let ghost net = described(ids@, ports@);
    let mut v: usize = 0;
    while v < ids.len()
        invariant
            net == described(ids@, ports@),
            ids@.len() == ports@.len(),
            v <= ids@.len(),
            forall|other: Slot| other.unit < v ==> !names_output(net, input@, other),
        decreases ids@.len() - v,
    {
        if ids[v] == input.id {
            match find_output(&ports[v].outputs, &input.field) {
                Some(p) => {
                    let slot = Slot { unit: v, port: p };
                    assert(net[v as int].ports.outputs[p as int] == ports@[v as int].outputs@[p as int]@);
                    assert forall|other: Slot| slot_before(other, slot) implies !names_output(
                        net,
                        input@,
                        other,
                    ) by {
                        if other.unit == v && other.port < p {
                            assert(net[v as int].ports.outputs[other.port as int]
                                == ports@[v as int].outputs@[other.port as int]@);
                        }
                    }
                    return Some(slot);
                },
                None => {
                    assert forall|other: Slot| other.unit == v implies !names_output(
                        net,
                        input@,
                        other,
                    ) by {
                        if other.port < net[v as int].ports.outputs.len() {
                            assert(net[v as int].ports.outputs[other.port as int]
                                == ports@[v as int].outputs@[other.port as int]@);
                        }
                    }
                },
            }
        }
        v += 1;
    }
    None
}

/// For every input of every component the output it is bound to; or the
/// first input that names an output that the circuit does not have.
pub fn resolve_all(ids: &Vec<Id>, ports: &Vec<Ports>) -> (r: Result<Vec<Vec<Slot>>, (usize, usize)>)
    requires
        ids@.len() == ports@.len(),
    ensures
        match r {
            Ok(wiring) => {
                &&& all_resolved(described(ids@, ports@))
                &&& wiring@.len() == ids@.len()
                &&& forall|v: int|
                    0 <= v < ids@.len() ==> (#[trigger] wiring@[v])@.len()
                        == ports@[v]@.inputs.len()
                &&& forall|v: int, k: int|
                    0 <= v < ids@.len() && 0 <= k < wiring@[v]@.len() ==> binds(
                        described(ids@, ports@),
                        ports@[v]@.inputs[k].input,
                        #[trigger] wiring@[v]@[k],
                    )
            },
            Err((v, k)) => is_first_dangling(described(ids@, ports@), v as int, k as int),
        },
{
    let ghost net = described(ids@, ports@);
    let mut wiring: Vec<Vec<Slot>> = Vec::new();
    let mut v: usize = 0;
    while v < ids.len()
        invariant
            net == described(ids@, ports@),
            ids@.len() == ports@.len(),
            v <= ids@.len(),
            wiring@.len() == v,
            forall|u: int| 0 <= u < v ==> (#[trigger] wiring@[u])@.len() == ports@[u]@.inputs.len(),
            forall|u: int, k: int|
                0 <= u < v && 0 <= k < wiring@[u]@.len() ==> binds(
                    net,
                    ports@[u]@.inputs[k].input,
                    #[trigger] wiring@[u]@[k],
                ),
            forall|u: int, p: int| u < v ==> !is_dangling(net, u, p),
        decreases ids@.len() - v,
    {
        let mut slots: Vec<Slot> = Vec::new();
        let mut k: usize = 0;
        while k < ports[v].inputs.len()
            invariant
                net == described(ids@, ports@),
                ids@.len() == ports@.len(),
                v < ids@.len(),
                k <= ports@[v as int].inputs@.len(),
                slots@.len() == k,
                forall|j: int|
                    0 <= j < k ==> binds(net, ports@[v as int]@.inputs[j].input, #[trigger] slots@[j]),
                forall|u: int, p: int| u < v ==> !is_dangling(net, u, p),
                forall|p: int| p < k ==> !is_dangling(net, v as int, p),
            decreases ports@[v as int].inputs@.len() - k,
        {
            assert(net[v as int].ports.inputs[k as int] == ports@[v as int].inputs@[k as int]@);
            match resolve(ids, ports, &ports[v].inputs[k].input) {
                Some(slot) => {
                    slots.push(slot);
                },
                None => {
                    return Err((v, k));
                },
            }
            k += 1;
        }
        wiring.push(slots);
        v += 1;
    }
    Ok(wiring)
}

/// For each component the components that have to be evaluated before it:
/// for a combinatorial one those that its inputs are bound to, for a
/// sequential one none.
pub fn dependencies(ports: &Vec<Ports>, wiring: &Vec<Vec<Slot>>) -> (deps: Vec<Vec<usize>>)
    requires
        ports@.len() == wiring@.len(),
    ensures
        deps@.len() == ports@.len(),
        forall|v: int|
            0 <= v < ports@.len() ==> (#[trigger] deps@[v])@ == if ports@[v].out_type
                == OutputType::Sequential {
                Seq::<usize>::empty()
            } else {
                Seq::new(wiring@[v]@.len(), |k: int| wiring@[v]@[k].unit)
            },
{
    let mut deps: Vec<Vec<usize>> = Vec::new();
    let mut v: usize = 0;
    while v < ports.len()
        invariant
            ports@.len() == wiring@.len(),
            v <= ports@.len(),
            deps@.len() == v,
            forall|u: int|
                0 <= u < v ==> (#[trigger] deps@[u])@ == if ports@[u].out_type
                    == OutputType::Sequential {
                    Seq::<usize>::empty()
                } else {
                    Seq::new(wiring@[u]@.len(), |k: int| wiring@[u]@[k].unit)
                },
        decreases ports@.len() - v,
    {
        let mut before: Vec<usize> = Vec::new();
        match ports[v].out_type {
            OutputType::Sequential => {},
            OutputType::Combinatorial => {
                let mut k: usize = 0;
                while k < wiring[v].len()
                    invariant
                        v < wiring@.len(),
                        k <= wiring@[v as int]@.len(),
                        before@.len() == k,
                        forall|j: int| 0 <= j < k ==> before@[j] == wiring@[v as int]@[j].unit,
                    decreases wiring@[v as int]@.len() - k,
                {
                    before.push(wiring[v][k].unit);
                    k += 1;
                }
                assert(before@ =~= Seq::new(
                    wiring@[v as int]@.len(),
                    |k: int| wiring@[v as int]@[k].unit,
                ));
            },
        }
        deps.push(before);
        v += 1;
    }
    deps
}

} // verus!

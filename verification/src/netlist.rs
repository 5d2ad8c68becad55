//! A circuit as its components describe it: names, ports and bindings, and
//! what it means for the bindings to resolve and for the circuit to have a
//! feedback loop that no register breaks.

use crate::ports::{Id, InputView, OutputType, Ports, PortsView};
use vstd::prelude::*;

verus! {

/// What a component says of itself: its name and its surface.
pub struct Description {
    pub id: Seq<char>,
    pub ports: PortsView,
}

/// One output of one component: the component's place in the circuit and the
/// output's place among the component's outputs.
#[derive(Clone, Copy, Debug, PartialEq, Eq, Structural)]
pub struct Slot {
    pub unit: usize,
    pub port: usize,
}

/// The descriptions that a list of names and a list of surfaces stand for.
pub open spec fn described(ids: Seq<Id>, ports: Seq<Ports>) -> Seq<Description> {
    Seq::new(ids.len(), |v: int| Description { id: ids[v]@, ports: ports[v]@ })
}

/// No two components share a name.
pub open spec fn unique_ids(net: Seq<Description>) -> bool {
    forall|i: int, j: int| 0 <= i < j < net.len() ==> net[i].id != net[j].id
}

/// `slot` is an output of the circuit that `input` names.
pub open spec fn names_output(net: Seq<Description>, input: InputView, slot: Slot) -> bool {
    &&& slot.unit < net.len()
    &&& net[slot.unit as int].id == input.id
    &&& slot.port < net[slot.unit as int].ports.outputs.len()
    &&& net[slot.unit as int].ports.outputs[slot.port as int] == input.field
}

/// `a` comes before `b` when outputs are counted component by component.
pub open spec fn slot_before(a: Slot, b: Slot) -> bool {
    a.unit < b.unit || (a.unit == b.unit && a.port < b.port)
}

/// `slot` is the output that `input` is bound to: the first output of the
/// circuit that `input` names.
pub open spec fn binds(net: Seq<Description>, input: InputView, slot: Slot) -> bool {
    &&& names_output(net, input, slot)
    &&& forall|other: Slot| slot_before(other, slot) ==> !names_output(net, input, other)
}

/// An input is bound to one output at most.
pub proof fn lemma_binds_one(net: Seq<Description>, input: InputView, a: Slot, b: Slot)
    requires
        binds(net, input, a),
        binds(net, input, b),
    ensures
        a == b,
{
    if slot_before(a, b) || slot_before(b, a) {
    }
}

/// `input` names an output that the circuit has.
pub open spec fn resolves(net: Seq<Description>, input: InputView) -> bool {
    exists|slot: Slot| names_output(net, input, slot)
}

/// Input port `port` of component `unit` names an output that the circuit
/// does not have.
pub open spec fn is_dangling(net: Seq<Description>, unit: int, port: int) -> bool {
    &&& 0 <= unit < net.len()
    &&& 0 <= port < net[unit].ports.inputs.len()
    &&& !resolves(net, net[unit].ports.inputs[port].input)
}

/// Input port `port` of component `unit` is the first of the circuit that
/// names an output that the circuit does not have.
pub open spec fn is_first_dangling(net: Seq<Description>, unit: int, port: int) -> bool {
    &&& is_dangling(net, unit, port)
    &&& forall|u: int, p: int|
        (u < unit || (u == unit && p < port)) ==> !is_dangling(net, u, p)
}

/// Component `j` has the name of a component before it.
pub open spec fn repeats_id(net: Seq<Description>, j: int) -> bool {
    0 <= j < net.len() && exists|i: int| 0 <= i < j && (#[trigger] net[i]).id == net[j].id
}

/// Component `j` is the first that has the name of a component before it.
pub open spec fn is_first_repeat(net: Seq<Description>, j: int) -> bool {
    repeats_id(net, j) && forall|earlier: int| 0 <= earlier < j ==> !repeats_id(net, earlier)
}

/// Every input of every component names an output that the circuit has.
pub open spec fn all_resolved(net: Seq<Description>) -> bool {
    forall|unit: int, port: int| !is_dangling(net, unit, port)
}

/// Component `reader` is combinatorial and has an input bound to an output
/// of component `source`: within a cycle, `reader` can be evaluated only
/// after `source`. A sequential reader depends on nothing in this sense,
/// because what it shows in a cycle was stored before the cycle began.
pub open spec fn depends_on(net: Seq<Description>, reader: usize, source: usize) -> bool {
    &&& reader < net.len()
    &&& source < net.len()
    &&& net[reader as int].ports.out_type == OutputType::Combinatorial
    &&& exists|k: int|
        0 <= k < net[reader as int].ports.inputs.len() && (
        #[trigger] net[reader as int].ports.inputs[k]).input.id == net[source as int].id
}

/// Each component on `path` depends on the next, and the last on the first:
/// a feedback loop with no register to break it.
pub open spec fn is_feedback_loop(net: Seq<Description>, path: Seq<usize>) -> bool {
    &&& path.len() > 0
    &&& forall|k: int|
        0 <= k < path.len() - 1 ==> depends_on(net, #[trigger] path[k], path[k + 1])
    &&& depends_on(net, path.last(), path[0])
}

/// The circuit has a feedback loop that no register breaks.
pub open spec fn has_feedback_loop(net: Seq<Description>) -> bool {
    exists|path: Seq<usize>| is_feedback_loop(net, path)
}

/// The names of the components on `path`.
pub open spec fn names_on(net: Seq<Description>, path: Seq<usize>) -> Seq<Seq<char>> {
    Seq::new(path.len(), |k: int| net[path[k] as int].id)
}

/// The circuit can be simulated: names are unique, every input is bound, and
/// every feedback loop goes through a register.
pub open spec fn buildable(net: Seq<Description>) -> bool {
    unique_ids(net) && all_resolved(net) && !has_feedback_loop(net)
}

} // verus!

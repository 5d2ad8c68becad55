//! The evaluation plan of a circuit: its components with every input bound
//! and an order fixed, and the two passes that make up a clock cycle.

use crate::component::{same_result, Component, Condition, ConditionView};
use crate::error::{fault_view, BuildError, Fault};
use crate::graph::schedule;
use crate::model::{Circuit, Pass};
use crate::netlist::{
    all_resolved, binds, buildable, depends_on, described, has_feedback_loop, is_feedback_loop,
    names_on, resolves, unique_ids, Slot,
};
use crate::ports::{views, Id, Input, OutputType, Ports};
use crate::signal::SignalValue;
use crate::state::{copy_values, SimState};
use crate::store::ComponentStore;
use crate::wiring::{dependencies, find_duplicate, resolve, resolve_all};
use vstd::prelude::*;

verus! {

/// A circuit that has been checked and scheduled. It keeps the components,
/// what each said of itself when the plan was made, the output that each
/// input is bound to, the order of evaluation, and the list of the
/// sequential components.
pub struct Plan<C: Component> {
    store: ComponentStore<C>,
    ids: Vec<Id>,
    ports: Vec<Ports>,
    wiring: Vec<Vec<Slot>>,
    ordered: Vec<usize>,
    sequential: Vec<usize>,
}

/// What planning finds out about a circuit: what each component says of
/// itself, the output that each input is bound to, and the order of
/// evaluation.
struct Layout {
    ids: Vec<Id>,
    ports: Vec<Ports>,
    wiring: Vec<Vec<Slot>>,
    ordered: Vec<usize>,
}

impl Layout {
    /// The circuit that the layout makes of the components `units`.
    spec fn circuit<C: Component>(&self, units: Seq<C>) -> Circuit<C> {
        Circuit { units, wiring: views(self.wiring@), order: self.ordered@ }
    }

    /// The layout describes the components `units`, and the circuit it
    /// makes of them is well formed.
    spec fn fits<C: Component>(&self, units: Seq<C>) -> bool {
        &&& self.ids@.len() == units.len()
        &&& self.ports@.len() == units.len()
        &&& described(self.ids@, self.ports@) == self.circuit(units).netlist()
        &&& self.circuit(units).wf()
    }
}

/// The names of the components at the places `path`.
fn names_of(ids: &Vec<Id>, path: &Vec<usize>) -> (names: Vec<Id>)
    requires
        forall|k: int| 0 <= k < path@.len() ==> (#[trigger] path@[k]) < ids@.len(),
    ensures
        names@.len() == path@.len(),
        forall|k: int| 0 <= k < path@.len() ==> (#[trigger] names@[k])@ == ids@[path@[k] as int]@,
{
    let mut names: Vec<Id> = Vec::new();
    let mut t: usize = 0;
    while t < path.len()
        invariant
            t <= path@.len(),
            names@.len() == t,
            forall|k: int| 0 <= k < path@.len() ==> (#[trigger] path@[k]) < ids@.len(),
            forall|k: int| 0 <= k < t ==> (#[trigger] names@[k])@ == ids@[path@[k] as int]@,
        decreases path@.len() - t,
    {
        names.push(ids[path[t]].clone());
        t += 1;
    }
    names
}

/// The places of the sequential components, in rising order.
fn register_list(ports: &Vec<Ports>) -> (list: Vec<usize>)
    ensures
        forall|j: int|
            0 <= j < list@.len() ==> (#[trigger] list@[j]) < ports@.len() && ports@[list@[j] as int].out_type
                == OutputType::Sequential,
        forall|i: int, j: int| 0 <= i < j < list@.len() ==> list@[i] < list@[j],
        forall|u: int|
            0 <= u < ports@.len() && ports@[u].out_type == OutputType::Sequential ==> exists|j: int|
                0 <= j < list@.len() && #[trigger] list@[j] == u,
{
    let mut list: Vec<usize> = Vec::new();
    let mut v: usize = 0;
    while v < ports.len()
        invariant
            v <= ports@.len(),
            forall|j: int|
                0 <= j < list@.len() ==> (#[trigger] list@[j]) < v && ports@[list@[j] as int].out_type
                    == OutputType::Sequential,
            forall|i: int, j: int| 0 <= i < j < list@.len() ==> list@[i] < list@[j],
            forall|u: int|
                0 <= u < v && ports@[u].out_type == OutputType::Sequential ==> exists|j: int|
                    0 <= j < list@.len() && #[trigger] list@[j] == u,
        decreases ports@.len() - v,
    {
        let ghost before = list@;
        match ports[v].out_type {
            OutputType::Sequential => {
                list.push(v);
                assert forall|u: int|
                    0 <= u < v + 1 && ports@[u].out_type == OutputType::Sequential implies exists|
                    j: int,
                | 0 <= j < list@.len() && #[trigger] list@[j] == u by {
                    if u < v {
                        let j = choose|j: int| 0 <= j < before.len() && #[trigger] before[j] == u;
                        assert(list@[j] == u);
                    } else {
                        assert(list@[before.len() as int] == u);
                    }
                }
            },
            OutputType::Combinatorial => {},
        }
        v += 1;
    }
    list
}

/// Checks a circuit: the names, then the bindings, then the feedback loops.
/// For a circuit that passes, the result is its layout.
fn analyse<C: Component>(store: &ComponentStore<C>) -> (r: Result<Layout, BuildError>)
    ensures
        match r {
            Ok(layout) => layout.fits(store.store@),
            Err(e) => e.explains(store.netlist()),
        },
        r is Ok <==> buildable(store.netlist()),
        r matches Err(BuildError::DuplicateId(_)) <==> !unique_ids(store.netlist()),
        r matches Err(BuildError::UnresolvedInput { .. }) <==> unique_ids(store.netlist())
            && !all_resolved(store.netlist()),
        r matches Err(BuildError::CombinatorialCycle(_)) <==> unique_ids(store.netlist())
            && all_resolved(store.netlist()) && has_feedback_loop(store.netlist()),
{
    let ghost net = store.netlist();
    let (ids, ports) = store.describe();
    match find_duplicate(&ids, &ports) {
        Some(j) => {
            assert(net[j as int].id == ids@[j as int]@);
            return Err(BuildError::DuplicateId(ids[j].clone()));
        },
        None => {},
    }
    let wiring = match resolve_all(&ids, &ports) {
        Ok(wiring) => wiring,
        Err((v, k)) => {
            assert(net[v as int].ports == ports@[v as int]@);
            assert(net[v as int].id == ids@[v as int]@);
            assert(ports@[v as int]@.inputs[k as int] == ports@[v as int].inputs@[k as int]@);
            let port = &ports[v].inputs[k];
            return Err(
                BuildError::UnresolvedInput {
                    component: ids[v].clone(),
                    port: port.port_id.clone(),
                    input: port.input.clone(),
                },
            );
        },
    };
    let ghost draft = Circuit::<C> {
        units: store.store@,
        wiring: views(wiring@),
        order: Seq::empty(),
    };
    assert(draft.netlist() =~= net);
    assert(draft.bound()) by {
        assert forall|v: int| 0 <= v < draft.units.len() implies (#[trigger] draft.wiring[v]).len()
            == draft.units[v].ports().inputs.len() by {
            assert(net[v].ports == ports@[v]@);
        }
        assert forall|v: int, k: int|
            0 <= v < draft.units.len() && 0 <= k < draft.wiring[v].len() implies binds(
            draft.netlist(),
            draft.units[v].ports().inputs[k].input,
            #[trigger] draft.wiring[v][k],
        ) by {
            assert(net[v].ports == ports@[v]@);
            assert(draft.wiring[v][k] == wiring@[v]@[k]);
        }
    }
    let deps = dependencies(&ports, &wiring);
    assert(views(deps@) =~= draft.deps()) by {
        assert forall|v: int| 0 <= v < deps@.len() implies views(deps@)[v] == draft.deps()[v] by {
            assert(net[v].ports == ports@[v]@);
            assert(views(deps@)[v] =~= draft.deps()[v]);
        }
    }
    proof {
        draft.lemma_deps_in_range();
        draft.lemma_has_cycle_is_has_feedback_loop();
    }
    match schedule(&deps) {
        Ok(ordered) => {
            let layout = Layout { ids, ports, wiring, ordered };
            proof {
                let circuit = layout.circuit(store.store@);
                assert(circuit.netlist() =~= net);
                assert(circuit.wiring == draft.wiring);
                assert(circuit.deps() =~= draft.deps());
                assert(circuit.bound());
            }
            Ok(layout)
        },
        Err(cycle) => {
            proof {
                draft.lemma_cycle_is_feedback_loop(cycle@);
                assert forall|k: int| 0 <= k < cycle@.len() implies (#[trigger] cycle@[k])
                    < ids@.len() by {
                    if k < cycle@.len() - 1 {
                        assert(depends_on(net, cycle@[k], cycle@[k + 1]));
                    } else {
                        assert(cycle@[k] == cycle@.last());
                    }
                }
            }
            let names = names_of(&ids, &cycle);
            assert(views(names@) =~= names_on(net, cycle@));
            Err(BuildError::CombinatorialCycle(names))
        },
    }
}

impl<C: Component> View for Plan<C> {
    type V = Circuit<C>;

    closed spec fn view(&self) -> Circuit<C> {
        Circuit { units: self.store.store@, wiring: views(self.wiring@), order: self.ordered@ }
    }
}

impl<C: Component> Plan<C> {
    /// `list` holds the sequential components of the circuit, in the
    /// circuit's order.
    closed spec fn lists_registers(circuit: Circuit<C>, list: Seq<usize>) -> bool {
        &&& forall|j: int|
            0 <= j < list.len() ==> (#[trigger] list[j]) < circuit.units.len()
                && circuit.is_sequential(list[j] as int)
        &&& forall|i: int, j: int| 0 <= i < j < list.len() ==> list[i] < list[j]
        &&& forall|v: int|
            0 <= v < circuit.units.len() && circuit.is_sequential(v) ==> exists|j: int|
                0 <= j < list.len() && #[trigger] list[j] == v
    }

    /// What the plan keeps beside the components agrees with them.
    pub closed spec fn consistent(&self) -> bool {
        &&& self.ids@.len() == self.store.store@.len()
        &&& self.ports@.len() == self.store.store@.len()
        &&& described(self.ids@, self.ports@) == self@.netlist()
        &&& Self::lists_registers(self@, self.sequential@)
    }

    /// The plan is consistent, and its circuit is well formed.
    pub open spec fn wf(&self) -> bool {
        self.consistent() && self@.wf()
    }

    /// The name and the surface of component `v`, as the plan keeps them.
    proof fn lemma_described(&self, v: int)
        requires
            self.consistent(),
            0 <= v < self@.units.len(),
        ensures
            self.ids@[v]@ == self@.units[v].id(),
            self.ports@[v]@ == self@.units[v].ports(),
            self@.is_sequential(v) <==> self.ports@[v].out_type == OutputType::Sequential,
    {
        assert(described(self.ids@, self.ports@)[v] == self@.netlist()[v]);
    }

    /// Checks a circuit and fixes its evaluation order.
    ///
    /// The circuit is accepted when no two components share a name, every
    /// input names an output that the circuit has, and every feedback loop
    /// goes through a sequential component. Otherwise the error says what
    /// is wrong: a repeated name first, then an unbound input, then a loop.
    pub fn new(store: ComponentStore<C>) -> (r: Result<Plan<C>, BuildError>)
        ensures
            match r {
                Ok(plan) => plan.wf() && plan@.units == store.store@,
                Err(e) => e.explains(store.netlist()),
            },
            r is Ok <==> buildable(store.netlist()),
            r matches Err(BuildError::DuplicateId(_)) <==> !unique_ids(store.netlist()),
            r matches Err(BuildError::UnresolvedInput { .. }) <==> unique_ids(store.netlist())
                && !all_resolved(store.netlist()),
            r matches Err(BuildError::CombinatorialCycle(_)) <==> unique_ids(store.netlist())
                && all_resolved(store.netlist()) && has_feedback_loop(store.netlist()),
    {
        match analyse(&store) {
            Ok(layout) => {
                let sequential = register_list(&layout.ports);
                let ghost net = store.netlist();
                let ghost draft = layout.circuit(store.store@);
                let plan = Plan {
                    store,
                    ids: layout.ids,
                    ports: layout.ports,
                    wiring: layout.wiring,
                    ordered: layout.ordered,
                    sequential,
                };
                proof {
                    assert(plan@ == draft);
                    assert(Self::lists_registers(plan@, plan.sequential@)) by {
                        assert forall|u: int| 0 <= u < plan@.units.len() implies (
                        plan@.is_sequential(u) <==> plan.ports@[u].out_type
                            == OutputType::Sequential) by {
                            assert(net[u].ports == plan.ports@[u]@);
                        }
                    }
                }
                Ok(plan)
            },
            Err(e) => Err(e),
        }
    }

    /// Tells whether a circuit can be planned, and if not, why not, without
    /// taking the circuit: the answer is the one that [`Plan::new`] gives.
    pub fn check(store: &ComponentStore<C>) -> (r: Result<(), BuildError>)
        ensures
            r matches Err(e) ==> e.explains(store.netlist()),
            r is Ok <==> buildable(store.netlist()),
            r matches Err(BuildError::DuplicateId(_)) <==> !unique_ids(store.netlist()),
            r matches Err(BuildError::UnresolvedInput { .. }) <==> unique_ids(store.netlist())
                && !all_resolved(store.netlist()),
            r matches Err(BuildError::CombinatorialCycle(_)) <==> unique_ids(store.netlist())
                && all_resolved(store.netlist()) && has_feedback_loop(store.netlist()),
    {
        match analyse(store) {
            Ok(_) => Ok(()),
            Err(e) => Err(e),
        }
    }

    /// The components, in the order in which they were put in.
    pub fn components(&self) -> (r: &Vec<C>)
        ensures
            r@ == self@.units,
    {
        &self.store.store
    }

    /// Gives the components back, to be rewired and planned again.
    pub fn into_store(self) -> (r: ComponentStore<C>)
        ensures
            r.store@ == self@.units,
    {
        self.store
    }

    /// The names of the components, in the order in which they were put in.
    pub fn ids(&self) -> (r: &Vec<Id>)
        requires
            self.wf(),
        ensures
            r@.len() == self@.units.len(),
            forall|v: int| 0 <= v < r@.len() ==> (#[trigger] r@[v])@ == self@.units[v].id(),
    {
        proof {
            assert forall|v: int| 0 <= v < self.ids@.len() implies (#[trigger] self.ids@[v])@
                == self@.units[v].id() by {
                self.lemma_described(v);
            }
        }
        &self.ids
    }

    /// The order of evaluation: the places of the components in the circuit.
    pub fn order(&self) -> (r: &Vec<usize>)
        ensures
            r@ == self@.order,
    {
        &self.ordered
    }

    /// The output that `input` is bound to, if the circuit has one of that
    /// name.
    pub fn slot_of(&self, input: &Input) -> (r: Option<Slot>)
        requires
            self.wf(),
        ensures
            match r {
                Some(slot) => binds(self@.netlist(), input@, slot),
                None => !resolves(self@.netlist(), input@),
            },
    {
        resolve(&self.ids, &self.ports, input)
    }

    /// The values before the first cycle: every output holds its start value.
    pub fn initial_state(&self) -> (r: SimState)
        requires
            self.wf(),
        ensures
            r@ == self@.initial(),
            self@.shaped(r@),
    {
        let mut values: Vec<Vec<SignalValue>> = Vec::new();
        let mut v: usize = 0;
        while v < self.store.store.len()
            invariant
                v <= self.store.store@.len(),
                values@.len() == v,
                forall|u: int| 0 <= u < v ==> (#[trigger] values@[u])@ == self@.units[u].initial(),
                forall|u: int|
                    0 <= u < v ==> (#[trigger] values@[u])@.len()
                        == self@.units[u].ports().outputs.len(),
            decreases self.store.store@.len() - v,
        {
            values.push(self.store.store[v].reset());
            v += 1;
        }
        let r = SimState { values };
        assert(r@ =~= self@.initial());
        r
    }

    /// Whether `state` has the circuit's shape: one list of values for each
    /// component, as long as the component has outputs.
    pub fn fits(&self, state: &SimState) -> (r: bool)
        requires
            self.wf(),
        ensures
            r == self@.shaped(state@),
    {
        if state.values.len() != self.ports.len() {
            return false;
        }
        let mut v: usize = 0;
        while v < self.ports.len()
            invariant
                self.wf(),
                state.values@.len() == self.ports@.len(),
                v <= self.ports@.len(),
                forall|u: int|
                    0 <= u < v ==> (#[trigger] state@[u]).len()
                        == self@.units[u].ports().outputs.len(),
            decreases self.ports@.len() - v,
        {
            proof {
                self.lemma_described(v as int);
                assert(state@[v as int] == state.values@[v as int]@);
            }
            if state.values[v].len() != self.ports[v].outputs.len() {
                return false;
            }
            v += 1;
        }
        true
    }

    /// The values on the inputs of component `v`.
    fn gather(&self, v: usize, state: &SimState) -> (r: Vec<SignalValue>)
        requires
            self.wf(),
            self@.shaped(state@),
            v < self@.units.len(),
        ensures
            r@ == self@.gather(v as int, state@),
    {
        let mut inputs: Vec<SignalValue> = Vec::new();
        let mut k: usize = 0;
        while k < self.wiring[v].len()
            invariant
                self.wf(),
                self@.shaped(state@),
                v < self@.units.len(),
                k <= self.wiring@[v as int]@.len(),
                inputs@.len() == k,
                forall|j: int|
                    0 <= j < k ==> inputs@[j]
                        == state@[self@.wiring[v as int][j].unit as int][self@.wiring[v as int][j].port as int],
            decreases self.wiring@[v as int]@.len() - k,
        {
            let slot = self.wiring[v][k];
            proof {
                assert(slot == self@.wiring[v as int][k as int]);
                assert(binds(
                    self@.netlist(),
                    self@.units[v as int].ports().inputs[k as int].input,
                    self@.wiring[v as int][k as int],
                ));
                assert(state@[slot.unit as int] == state.values@[slot.unit as int]@);
            }
            inputs.push(state.values[slot.unit][slot.port]);
            k += 1;
        }
        assert(inputs@ =~= self@.gather(v as int, state@));
        inputs
    }

    /// What component `v` computes when the circuit holds `state`.
    fn evaluate(&self, v: usize, state: &SimState) -> (r: Result<Vec<SignalValue>, Condition>)
        requires
            self.wf(),
            self@.shaped(state@),
            v < self@.units.len(),
        ensures
            same_result(r, self@.output_of(v as int, state@)),
            r matches Ok(values) ==> values@.len() == self@.units[v as int].ports().outputs.len(),
    {
        let inputs = self.gather(v, state);
        proof {
            self.lemma_described(v as int);
            assert(state@[v as int] == state.values@[v as int]@);
        }
        match self.ports[v].out_type {
            OutputType::Sequential => self.store.store[v].clock(&inputs, &state.values[v]),
            OutputType::Combinatorial => {
                let nothing: Vec<SignalValue> = Vec::new();
                assert(nothing@ =~= Seq::<SignalValue>::empty());
                self.store.store[v].clock(&inputs, &nothing)
            },
        }
    }

    /// Settles the combinatorial values. The components are visited in the
    /// plan's order; each combinatorial one is evaluated and its outputs are
    /// replaced at once, each sequential one is left as it is. The first
    /// condition ends the pass and is returned; what was written before it
    /// stays.
    pub fn propagate(&self, state: &mut SimState) -> (r: Option<Fault>)
        requires
            self.wf(),
            self@.shaped(old(state)@),
        ensures
            self@.shaped(final(state)@),
            self@.settle(old(state)@) == (Pass { values: final(state)@, fault: fault_view(r) }),
    {
        let ghost circuit = self@;
        let ghost start = state@;
        let mut q: usize = 0;
        while q < self.ordered.len()
            invariant
                self.wf(),
                circuit == self@,
                start == old(state)@,
                q <= self.ordered@.len(),
                circuit.order == self.ordered@,
                circuit.shaped(state@),
                circuit.settle_upto(start, q as nat) == (Pass { values: state@, fault: None }),
            decreases self.ordered@.len() - q,
        {
            let v = self.ordered[q];
            proof {
                self.lemma_described(v as int);
            }
            match self.ports[v].out_type {
                OutputType::Sequential => {},
                OutputType::Combinatorial => {
                    match self.evaluate(v, state) {
                        Ok(out) => {
                            state.set_outputs(v, out);
                        },
                        Err(condition) => {
                            let fault = Fault { unit: v, component: self.ids[v].clone(), condition };
                            proof {
                                assert(circuit.settle_upto(start, ((q + 1) - 1) as nat) == (Pass {
                                    values: state@,
                                    fault: None,
                                }));
                                assert(circuit.order[(q + 1) - 1] == v);
                                assert(circuit.settle_upto(start, (q + 1) as nat) == (Pass {
                                    values: state@,
                                    fault: Some(fault@),
                                }));
                                circuit.lemma_settle_stops(
                                    start,
                                    (q + 1) as nat,
                                    circuit.order.len(),
                                );
                            }
                            return Some(fault);
                        },
                    }
                },
            }
            q += 1;
        }
        None
    }

    /// Ends a cycle. Every sequential component is asked for its next
    /// values, all from the same settled values; then all of them take their
    /// next values on. The first condition that one of them raises is
    /// returned, and then no value changes.
    pub fn latch(&self, state: &mut SimState) -> (r: Option<Fault>)
        requires
            self.wf(),
            self@.shaped(old(state)@),
        ensures
            self@.shaped(final(state)@),
            self@.latch(old(state)@) == (Pass { values: final(state)@, fault: fault_view(r) }),
    {
        let ghost circuit = self@;
        let ghost start = state@;
        let mut staged: Vec<Vec<SignalValue>> = Vec::new();
        let mut j: usize = 0;
        while j < self.sequential.len()
            invariant
                self.wf(),
                circuit == self@,
                state@ == start,
                circuit.shaped(start),
                j <= self.sequential@.len(),
                staged@.len() == j,
                forall|i: int|
                    0 <= i < j ==> circuit.output_of(self.sequential@[i] as int, start) == Ok::<
                        Seq<SignalValue>,
                        ConditionView,
                    >((#[trigger] staged@[i])@),
                forall|i: int|
                    0 <= i < j ==> (#[trigger] staged@[i])@.len()
                        == circuit.units[self.sequential@[i] as int].ports().outputs.len(),
            decreases self.sequential@.len() - j,
        {
            let v = self.sequential[j];
            match self.evaluate(v, state) {
                Ok(out) => {
                    staged.push(out);
                },
                Err(condition) => {
                    let fault = Fault { unit: v, component: self.ids[v].clone(), condition };
                    proof {
                        self.lemma_described(v as int);
                        assert forall|u: int|
                            0 <= u < v && circuit.is_sequential(u) implies circuit.output_of(
                            u,
                            start,
                        ) is Ok by {
                            let i = choose|i: int|
                                0 <= i < self.sequential@.len() && #[trigger] self.sequential@[i]
                                    == u;
                            if i >= j {
                                assert(self.sequential@[j as int] <= self.sequential@[i]);
                            }
                            assert(staged@[i]@.len() >= 0);
                        }
                        circuit.lemma_no_refusal(start, v as nat);
                        circuit.lemma_refusal_stays(start, (v + 1) as nat, circuit.units.len());
                    }
                    return Some(fault);
                },
            }
            j += 1;
        }
        proof {
            assert forall|u: int|
                0 <= u < circuit.units.len() && circuit.is_sequential(u) implies circuit.output_of(
                u,
                start,
            ) is Ok by {
                let i = choose|i: int|
                    0 <= i < self.sequential@.len() && #[trigger] self.sequential@[i] == u;
                assert(staged@[i]@.len() >= 0);
            }
            circuit.lemma_no_refusal(start, circuit.units.len());
        }
        let mut j: usize = 0;
        while j < self.sequential.len()
            invariant
                self.wf(),
                circuit == self@,
                circuit.shaped(start),
                circuit.shaped(state@),
                j <= self.sequential@.len(),
                staged@.len() == self.sequential@.len(),
                forall|i: int|
                    0 <= i < staged@.len() ==> circuit.output_of(self.sequential@[i] as int, start)
                        == Ok::<Seq<SignalValue>, ConditionView>(
                        (#[trigger] staged@[i])@,
                    ),
                forall|i: int|
                    0 <= i < staged@.len() ==> (#[trigger] staged@[i])@.len()
                        == circuit.units[self.sequential@[i] as int].ports().outputs.len(),
                forall|i: int|
                    0 <= i < j ==> state@[#[trigger] self.sequential@[i] as int] == staged@[i]@,
                forall|u: int|
                    0 <= u < circuit.units.len() && (forall|i: int|
                        0 <= i < j ==> #[trigger] self.sequential@[i] != u) ==> #[trigger] state@[u]
                        == start[u],
            decreases self.sequential@.len() - j,
        {
            let v = self.sequential[j];
            let ghost before = state@;
            state.set_outputs(v, copy_values(&staged[j]));
            proof {
                assert forall|i: int| 0 <= i < j + 1 implies state@[#[trigger] self.sequential@[i] as int]
                    == staged@[i]@ by {
                    if i < j {
                        assert(self.sequential@[i] < self.sequential@[j as int]);
                        assert(before[self.sequential@[i] as int] == staged@[i]@);
                    }
                }
                assert forall|u: int|
                    0 <= u < circuit.units.len() && (forall|i: int|
                        0 <= i < j + 1 ==> #[trigger] self.sequential@[i] != u) implies #[trigger] state@[u]
                    == start[u] by {
                    assert(self.sequential@[j as int] != u);
                    assert(forall|i: int| 0 <= i < j ==> #[trigger] self.sequential@[i] != u);
                    assert(before[u] == start[u]);
                }
            }
            j += 1;
        }
        proof {
            assert forall|u: int| 0 <= u < start.len() implies state@[u] == circuit.latched(start)[u] by {
                if circuit.is_sequential(u) {
                    let i = choose|i: int|
                        0 <= i < self.sequential@.len() && #[trigger] self.sequential@[i] == u;
                    assert(state@[self.sequential@[i] as int] == staged@[i]@);
                } else {
                    assert(forall|i: int|
                        0 <= i < self.sequential@.len() ==> #[trigger] self.sequential@[i] != u);
                }
            }
            assert(state@ =~= circuit.latched(start));
        }
        None
    }
}

} // verus!

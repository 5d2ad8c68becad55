//! The engine as mathematics: what a cycle does to the values of a circuit.
//!
//! The executable simulator is specified against the functions of this
//! module, and the laws of the engine are proved of them.

use crate::component::{Component, ConditionView};
use crate::graph::{
    has_cycle, in_range, is_cycle, is_topological, reads, schedule_of, sources_first,
};
use crate::netlist::{
    binds, depends_on, has_feedback_loop, is_feedback_loop, unique_ids, Description, Slot,
};
use crate::ports::OutputType;
use crate::signal::SignalValue;
use vstd::prelude::*;

verus! {

/// The values of a circuit: for each component, in the circuit's order, the
/// values of its outputs, in their order.
pub type Values = Seq<Seq<SignalValue>>;

/// A condition, with the component that raised it.
pub struct FaultView {
    pub unit: usize,
    pub component: Seq<char>,
    pub condition: ConditionView,
}

/// How a pass over the circuit ended: the values it left, and the condition
/// that stopped it, if one did.
pub struct Pass {
    pub values: Values,
    pub fault: Option<FaultView>,
}

/// A circuit that is ready to run: its components, the output that each
/// input is bound to, and the order in which the components are evaluated.
pub struct Circuit<C> {
    pub units: Seq<C>,
    pub wiring: Seq<Seq<Slot>>,
    pub order: Seq<usize>,
}

impl<C: Component> Circuit<C> {
    /// What the components say of themselves.
    pub open spec fn netlist(self) -> Seq<Description> {
        Seq::new(
            self.units.len(),
            |v: int| Description { id: self.units[v].id(), ports: self.units[v].ports() },
        )
    }

    /// Component `v` keeps its outputs from cycle to cycle.
    pub open spec fn is_sequential(self, v: int) -> bool {
        self.units[v].ports().out_type == OutputType::Sequential
    }

    /// For each component, the components that have to be evaluated before
    /// it: for a combinatorial one those that its inputs are bound to, for a
    /// sequential one none.
    pub open spec fn deps(self) -> Seq<Seq<usize>> {
        Seq::new(
            self.units.len(),
            |v: int|
                if self.is_sequential(v) {
                    Seq::empty()
                } else {
                    Seq::new(self.wiring[v].len(), |k: int| self.wiring[v][k].unit)
                },
        )
    }

    /// Every input of every component is bound to the output it names.
    pub open spec fn bound(self) -> bool {
        &&& self.wiring.len() == self.units.len()
        &&& forall|v: int|
            0 <= v < self.units.len() ==> (#[trigger] self.wiring[v]).len()
                == self.units[v].ports().inputs.len()
        &&& forall|v: int, k: int|
            0 <= v < self.units.len() && 0 <= k < self.wiring[v].len() ==> binds(
                self.netlist(),
                self.units[v].ports().inputs[k].input,
                #[trigger] self.wiring[v][k],
            )
    }

    /// Names are unique, every input is bound to the output it names, and the
    /// order is the one that scheduling gives: it puts every combinatorial
    /// component behind the components it reads, those that wait for nothing
    /// first.
    pub open spec fn wf(self) -> bool {
        &&& unique_ids(self.netlist())
        &&& self.bound()
        &&& self.order == schedule_of(self.deps())
        &&& is_topological(self.deps(), self.order)
        &&& sources_first(self.deps(), self.order)
    }

    /// The components that a component has to wait for are components of
    /// the circuit.
    pub proof fn lemma_deps_in_range(self)
        requires
            self.bound(),
        ensures
            in_range(self.deps()),
    {
        let deps = self.deps();
        assert forall|v: int, k: int| 0 <= v < deps.len() && 0 <= k < deps[v].len() implies (
        #[trigger] deps[v][k]) < deps.len() by {
            assert(binds(self.netlist(), self.units[v].ports().inputs[k].input, self.wiring[v][k]));
        }
    }

    /// In the graph that the order is computed from, a component reads
    /// another exactly when it depends on it.
    pub proof fn lemma_reads_is_depends_on(self, reader: usize, source: usize)
        requires
            unique_ids(self.netlist()),
            self.bound(),
        ensures
            reads(self.deps(), reader, source) <==> depends_on(self.netlist(), reader, source),
    {
        let net = self.netlist();
        let deps = self.deps();
        if reads(deps, reader, source) {
            let k = choose|k: int|
                0 <= k < deps[reader as int].len() && deps[reader as int][k] == source;
            assert(binds(
                net,
                self.units[reader as int].ports().inputs[k].input,
                self.wiring[reader as int][k],
            ));
            assert(net[reader as int].ports.inputs[k].input.id == net[source as int].id);
        }
        if depends_on(net, reader, source) {
            let k = choose|k: int|
                0 <= k < net[reader as int].ports.inputs.len() && (
                #[trigger] net[reader as int].ports.inputs[k]).input.id == net[source as int].id;
            let slot = self.wiring[reader as int][k];
            assert(binds(net, self.units[reader as int].ports().inputs[k].input, slot));
            assert(slot.unit == source) by {
                if slot.unit < source {
                    assert(net[slot.unit as int].id != net[source as int].id);
                } else if slot.unit > source {
                    assert(net[source as int].id != net[slot.unit as int].id);
                }
            }
            assert(deps[reader as int][k] == source);
        }
    }

    /// A cycle of the graph is a feedback loop of the circuit, and the other
    /// way round.
    pub proof fn lemma_cycle_is_feedback_loop(self, path: Seq<usize>)
        requires
            unique_ids(self.netlist()),
            self.bound(),
        ensures
            is_cycle(self.deps(), path) <==> is_feedback_loop(self.netlist(), path),
    {
        if path.len() > 0 {
            assert forall|k: int| 0 <= k < path.len() - 1 implies (reads(
                self.deps(),
                #[trigger] path[k],
                path[k + 1],
            ) <==> depends_on(self.netlist(), path[k], path[k + 1])) by {
                self.lemma_reads_is_depends_on(path[k], path[k + 1]);
            }
            self.lemma_reads_is_depends_on(path.last(), path[0]);
        }
    }

    /// The graph has a cycle exactly when the circuit has a feedback loop
    /// that no register breaks.
    pub proof fn lemma_has_cycle_is_has_feedback_loop(self)
        requires
            unique_ids(self.netlist()),
            self.bound(),
        ensures
            has_cycle(self.deps()) <==> has_feedback_loop(self.netlist()),
    {
        if has_cycle(self.deps()) {
            let path = choose|path: Seq<usize>| is_cycle(self.deps(), path);
            self.lemma_cycle_is_feedback_loop(path);
        }
        if has_feedback_loop(self.netlist()) {
            let path = choose|path: Seq<usize>| is_feedback_loop(self.netlist(), path);
            self.lemma_cycle_is_feedback_loop(path);
        }
    }

    /// There is one list of values for each component, as long as the
    /// component has outputs.
    pub open spec fn shaped(self, values: Values) -> bool {
        &&& values.len() == self.units.len()
        &&& forall|v: int|
            0 <= v < self.units.len() ==> (#[trigger] values[v]).len()
                == self.units[v].ports().outputs.len()
    }

    /// The values before the first cycle: each output holds its start value.
    pub open spec fn initial(self) -> Values {
        Seq::new(self.units.len(), |v: int| self.units[v].initial())
    }

    /// The values on the inputs of component `v`, in the order of its ports.
    pub open spec fn gather(self, v: int, values: Values) -> Seq<SignalValue> {
        Seq::new(
            self.wiring[v].len(),
            |k: int| values[self.wiring[v][k].unit as int][self.wiring[v][k].port as int],
        )
    }

    /// What component `v` computes when the circuit holds `values`. A
    /// sequential component sees the values that its own outputs hold.
    pub open spec fn output_of(self, v: int, values: Values) -> Result<
        Seq<SignalValue>,
        ConditionView,
    > {
        self.units[v].eval(
            self.gather(v, values),
            if self.is_sequential(v) {
                values[v]
            } else {
                Seq::empty()
            },
        )
    }

    /// The condition `condition`, raised by component `v`.
    pub open spec fn fault_of(self, v: usize, condition: ConditionView) -> FaultView {
        FaultView { unit: v, component: self.units[v as int].id(), condition }
    }

    /// The first `k` steps of settling the combinatorial values: the
    /// components are visited in the circuit's order. A combinatorial
    /// component is evaluated and its outputs are replaced at once; a
    /// sequential one is left as it is. The first condition ends the pass:
    /// what was written before stays, and nothing more is written.
    pub open spec fn settle_upto(self, values: Values, k: nat) -> Pass
        decreases k,
    {
        if k == 0 {
            Pass { values, fault: None }
        } else {
            let before = self.settle_upto(values, (k - 1) as nat);
            let v = self.order[k - 1];
            if before.fault is Some || self.is_sequential(v as int) {
                before
            } else {
                match self.output_of(v as int, before.values) {
                    Ok(out) => Pass { values: before.values.update(v as int, out), fault: None },
                    Err(condition) => Pass {
                        values: before.values,
                        fault: Some(self.fault_of(v, condition)),
                    },
                }
            }
        }
    }

    /// Settling the combinatorial values: a pass over all components.
    pub open spec fn settle(self, values: Values) -> Pass {
        self.settle_upto(values, self.order.len())
    }

    /// The first condition that a sequential component among the first `k`
    /// components raises when it is asked for its next values.
    pub open spec fn refusal_upto(self, values: Values, k: nat) -> Option<FaultView>
        decreases k,
    {
        if k == 0 {
            None
        } else {
            let v = k - 1;
            match self.refusal_upto(values, (k - 1) as nat) {
                Some(fault) => Some(fault),
                None => if self.is_sequential(v) {
                    match self.output_of(v, values) {
                        Ok(_) => None,
                        Err(condition) => Some(self.fault_of(v as usize, condition)),
                    }
                } else {
                    None
                },
            }
        }
    }

    /// The values after the registers have taken in their inputs: every
    /// sequential component holds what it computes from `values`, and every
    /// other component holds what it held.
    pub open spec fn latched(self, values: Values) -> Values {
        Seq::new(
            values.len(),
            |v: int|
                if self.is_sequential(v) {
                    match self.output_of(v, values) {
                        Ok(out) => out,
                        Err(_) => values[v],
                    }
                } else {
                    values[v]
                },
        )
    }

    /// The end of a cycle: every sequential component is asked for its next
    /// values, all of them from the same settled values, and then all take
    /// them on together. Where one of them raises a condition, none changes.
    pub open spec fn latch(self, values: Values) -> Pass {
        match self.refusal_upto(values, self.units.len()) {
            Some(fault) => Pass { values, fault: Some(fault) },
            None => Pass { values: self.latched(values), fault: None },
        }
    }

    /// One clock cycle: the combinatorial values settle, and if no condition
    /// stopped them, the registers latch.
    pub open spec fn cycle(self, values: Values) -> Pass {
        let settled = self.settle(values);
        if settled.fault is Some {
            settled
        } else {
            self.latch(settled.values)
        }
    }

    /// The start of a run: every output holds its start value, and the
    /// combinatorial values settle once.
    pub open spec fn start(self) -> Pass {
        self.settle(self.initial())
    }

    /// A pass that a condition has stopped stays as it is.
    pub proof fn lemma_settle_stops(self, values: Values, k: nat, m: nat)
        requires
            k <= m,
            self.settle_upto(values, k).fault is Some,
        ensures
            self.settle_upto(values, m) == self.settle_upto(values, k),
        decreases m,
    {
        if k < m {
            self.lemma_settle_stops(values, k, (m - 1) as nat);
        }
    }

    /// Where every sequential component among the first `k` has next
    /// values, none of them raises a condition.
    pub proof fn lemma_no_refusal(self, values: Values, k: nat)
        requires
            forall|v: int| 0 <= v < k && self.is_sequential(v) ==> self.output_of(v, values) is Ok,
        ensures
            self.refusal_upto(values, k) is None,
        decreases k,
    {
        if k > 0 {
            self.lemma_no_refusal(values, (k - 1) as nat);
        }
    }

    /// The first condition that a sequential component raises is the one that
    /// is reported.
    pub proof fn lemma_refusal_stays(self, values: Values, k: nat, m: nat)
        requires
            k <= m,
            self.refusal_upto(values, k) is Some,
        ensures
            self.refusal_upto(values, m) == self.refusal_upto(values, k),
        decreases m,
    {
        if k < m {
            self.lemma_refusal_stays(values, k, (m - 1) as nat);
        }
    }
}

/// A simulator as mathematics: a circuit, the values it holds, the values it
/// held before each cycle that can be undone, and the condition that the
/// last pass recorded.
pub struct Machine<C> {
    pub circuit: Circuit<C>,
    pub values: Values,
    pub history: Seq<Values>,
    pub fault: Option<FaultView>,
}

impl<C: Component> Machine<C> {
    /// The circuit is well formed, and the values and every entry of the
    /// history have its shape.
    pub open spec fn wf(self) -> bool {
        &&& self.circuit.wf()
        &&& self.circuit.shaped(self.values)
        &&& forall|h: int|
            0 <= h < self.history.len() ==> self.circuit.shaped(#[trigger] self.history[h])
    }

    /// The simulator of a circuit before the first cycle: the start values
    /// have settled once, and there is nothing to undo.
    pub open spec fn started(circuit: Circuit<C>) -> Machine<C> {
        Machine {
            circuit,
            values: circuit.start().values,
            history: Seq::empty(),
            fault: circuit.start().fault,
        }
    }

    /// The simulator after one more cycle. The values before the cycle go on
    /// top of the history, whether a condition stops the cycle or not.
    pub open spec fn clocked(self) -> Machine<C> {
        Machine {
            circuit: self.circuit,
            values: self.circuit.cycle(self.values).values,
            history: self.history.push(self.values),
            fault: self.circuit.cycle(self.values).fault,
        }
    }

    /// The simulator after the last cycle has been undone: the values are
    /// those on top of the history. With an empty history nothing changes.
    pub open spec fn unclocked(self) -> Machine<C> {
        if self.history.len() == 0 {
            self
        } else {
            Machine {
                circuit: self.circuit,
                values: self.history.last(),
                history: self.history.drop_last(),
                fault: self.fault,
            }
        }
    }

    /// The simulator after a reset: as before the first cycle.
    pub open spec fn restarted(self) -> Machine<C> {
        Machine::started(self.circuit)
    }

    /// The simulator after `n` more cycles.
    pub open spec fn after(self, n: nat) -> Machine<C>
        decreases n,
    {
        if n == 0 {
            self
        } else {
            self.after((n - 1) as nat).clocked()
        }
    }

    /// The simulator after `n` cycles have been undone.
    pub open spec fn undone(self, n: nat) -> Machine<C>
        decreases n,
    {
        if n == 0 {
            self
        } else {
            self.unclocked().undone((n - 1) as nat)
        }
    }
}

/// `f` applied `n` times to `x`.
pub open spec fn iterate<T>(f: spec_fn(T) -> T, n: nat, x: T) -> T
    decreases n,
{
    if n == 0 {
        x
    } else {
        f(iterate(f, (n - 1) as nat, x))
    }
}

} // verus!

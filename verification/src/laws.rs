//! What holds of every circuit and every run: the laws of the engine, each
//! proved of the mathematics that the simulator is specified against.

use crate::component::{Component, ConditionView};
use crate::graph::appears_before;
use crate::model::{iterate, Circuit, Machine, Pass, Values};
use crate::netlist::{depends_on, lemma_binds_one};
use crate::signal::SignalValue;
use vstd::prelude::*;

verus! {

impl<C: Component> Circuit<C> {
    /// A pass leaves as many lists of values as it found.
    pub proof fn lemma_settle_keeps_length(self, values: Values, k: nat)
        requires
            self.wf(),
            values.len() == self.units.len(),
            k <= self.order.len(),
        ensures
            self.settle_upto(values, k).values.len() == values.len(),
        decreases k,
    {
        if k > 0 {
            self.lemma_settle_keeps_length(values, (k - 1) as nat);
        }
    }

    /// What the components say of themselves decides the plan: two well
    /// formed circuits whose components have the same names and surfaces bind
    /// every input to the same output and evaluate in the same order.
    pub proof fn law_plan_is_determined(self, other: Circuit<C>)
        requires
            self.wf(),
            other.wf(),
            self.netlist() == other.netlist(),
        ensures
            self.wiring == other.wiring,
            self.order == other.order,
    {
        let net = self.netlist();
        assert(self.units.len() == other.units.len()) by {
            assert(self.netlist().len() == self.units.len());
            assert(other.netlist().len() == other.units.len());
        }
        assert forall|v: int| 0 <= v < self.units.len() implies self.wiring[v]
            == other.wiring[v] by {
            assert(net[v] == other.netlist()[v]);
            assert(self.units[v].ports() == other.units[v].ports());
            assert forall|k: int| 0 <= k < self.wiring[v].len() implies self.wiring[v][k]
                == other.wiring[v][k] by {
                lemma_binds_one(
                    net,
                    self.units[v].ports().inputs[k].input,
                    self.wiring[v][k],
                    other.wiring[v][k],
                );
            }
            assert(self.wiring[v] =~= other.wiring[v]);
        }
        assert(self.wiring =~= other.wiring);
        assert forall|v: int| 0 <= v < self.units.len() implies self.deps()[v]
            == other.deps()[v] by {
            assert(net[v] == other.netlist()[v]);
        }
        assert(self.deps() =~= other.deps());
    }

    /// In the evaluation order every component stands behind the components
    /// it depends on: those whose outputs it reads within a cycle.
    pub proof fn law_order_respects_dependencies(self, q: int, source: usize)
        requires
            self.wf(),
            0 <= q < self.order.len(),
            depends_on(self.netlist(), self.order[q], source),
        ensures
            appears_before(self.order, source as int, q),
    {
        self.lemma_reads_is_depends_on(self.order[q], source);
        let deps = self.deps();
        let reader = self.order[q];
        let k = choose|k: int|
            0 <= k < deps[reader as int].len() && #[trigger] deps[reader as int][k] == source;
        assert(appears_before(self.order, deps[self.order[q] as int][k] as int, q));
    }

    /// While the combinatorial values settle, a sequential component shows
    /// what it showed when the pass began: nothing writes to its outputs
    /// before the cycle ends.
    pub proof fn law_registers_hold_while_settling(self, values: Values, v: int, k: nat)
        requires
            self.wf(),
            values.len() == self.units.len(),
            0 <= v < self.units.len(),
            self.is_sequential(v),
            k <= self.order.len(),
        ensures
            self.settle_upto(values, k).values[v] == values[v],
        decreases k,
    {
        if k > 0 {
            self.law_registers_hold_while_settling(values, v, (k - 1) as nat);
            self.lemma_settle_keeps_length(values, (k - 1) as nat);
        }
    }

    /// Once the pass has gone by a component, later steps of the pass leave
    /// that component's outputs as they are.
    pub proof fn lemma_settle_leaves_earlier(self, values: Values, p: int, k: nat, m: nat)
        requires
            self.wf(),
            values.len() == self.units.len(),
            0 <= p < k <= m <= self.order.len(),
        ensures
            self.settle_upto(values, m).values[self.order[p] as int] == self.settle_upto(
                values,
                k,
            ).values[self.order[p] as int],
        decreases m,
    {
        if k < m {
            self.lemma_settle_leaves_earlier(values, p, k, (m - 1) as nat);
            self.lemma_settle_keeps_length(values, (m - 1) as nat);
            assert(self.order[p] != self.order[m - 1]);
        }
    }

    /// What a combinatorial component reads when its turn comes is what the
    /// same inputs hold in any later stage of the pass.
    pub proof fn lemma_inputs_are_settled(self, values: Values, k: nat, m: nat)
        requires
            self.wf(),
            values.len() == self.units.len(),
            0 < k <= m <= self.order.len(),
            !self.is_sequential(self.order[k - 1] as int),
        ensures
            self.output_of(self.order[k - 1] as int, self.settle_upto(values, m).values)
                == self.output_of(
                self.order[k - 1] as int,
                self.settle_upto(values, (k - 1) as nat).values,
            ),
    {
        let v = self.order[k - 1] as int;
        let late = self.settle_upto(values, m).values;
        let early = self.settle_upto(values, (k - 1) as nat).values;
        assert forall|j: int| 0 <= j < self.wiring[v].len() implies late[self.wiring[v][j].unit as int]
            == early[self.wiring[v][j].unit as int] by {
            let source = self.wiring[v][j].unit;
            assert(self.deps()[self.order[k - 1] as int][j] == source);
            assert(appears_before(self.order, self.deps()[self.order[k - 1] as int][j] as int, k - 1));
            let p = choose|p: int|
                0 <= p < k - 1 && p < self.order.len() && #[trigger] self.order[p] == source;
            self.lemma_settle_leaves_earlier(values, p, (k - 1) as nat, m);
        }
        assert(self.gather(v, late) =~= self.gather(v, early));
    }

    /// A second pass over settled values finds every step as the first pass
    /// left it.
    proof fn lemma_settle_again(self, values: Values, k: nat)
        requires
            self.wf(),
            values.len() == self.units.len(),
            k <= self.order.len(),
        ensures
            self.settle_upto(self.settle(values).values, k) == (Pass {
                values: self.settle(values).values,
                fault: self.settle_upto(values, k).fault,
            }),
        decreases k,
    {
        let last = self.order.len();
        let settled = self.settle(values).values;
        if k > 0 {
            self.lemma_settle_again(values, (k - 1) as nat);
            let v = self.order[k - 1];
            let first = self.settle_upto(values, (k - 1) as nat);
            if first.fault is None && !self.is_sequential(v as int) {
                self.lemma_inputs_are_settled(values, k, last);
                self.lemma_settle_keeps_length(values, last);
                match self.output_of(v as int, first.values) {
                    Ok(out) => {
                        self.lemma_settle_leaves_earlier(values, k - 1, k, last);
                        self.lemma_settle_keeps_length(values, (k - 1) as nat);
                        assert(settled.update(v as int, out) =~= settled);
                    },
                    Err(_) => {},
                }
            }
        }
    }

    /// Settling values that have settled changes nothing: the same values
    /// come out, and the same condition, if there was one.
    pub proof fn law_settling_is_idempotent(self, values: Values)
        requires
            self.wf(),
            values.len() == self.units.len(),
        ensures
            self.settle(self.settle(values).values) == self.settle(values),
    {
        self.lemma_settle_again(values, self.order.len());
    }

    /// In a circuit without sequential components a cycle is the settling of
    /// the combinatorial values and nothing more.
    pub proof fn lemma_cycle_without_registers(self, values: Values)
        requires
            self.wf(),
            values.len() == self.units.len(),
            forall|v: int| 0 <= v < self.units.len() ==> !self.is_sequential(v),
        ensures
            self.cycle(values) == self.settle(values),
    {
        let settled = self.settle(values);
        self.lemma_settle_keeps_length(values, self.order.len());
        self.lemma_no_refusal(settled.values, self.units.len());
        assert(self.latched(settled.values) =~= settled.values);
    }
}

impl<C: Component> Circuit<C> {
    /// Where no sequential component among the first `k` raises a condition,
    /// each of them has next values.
    pub proof fn lemma_no_refusal_means_all_ok(self, values: Values, k: nat, v: int)
        requires
            self.refusal_upto(values, k) is None,
            0 <= v < k,
            self.is_sequential(v),
        ensures
            self.output_of(v, values) is Ok,
        decreases k,
    {
        if v < k - 1 {
            self.lemma_no_refusal_means_all_ok(values, (k - 1) as nat, v);
        }
    }

    /// What a cycle that no condition stopped leaves behind: a sequential
    /// component holds what it computed from the settled values, and a
    /// combinatorial component holds the value it settled on.
    pub proof fn law_registers_latch_settled_inputs(self, values: Values, v: int)
        requires
            self.wf(),
            values.len() == self.units.len(),
            0 <= v < self.units.len(),
            self.cycle(values).fault is None,
        ensures
            self.is_sequential(v) ==> self.output_of(v, self.settle(values).values) == Ok::<
                Seq<SignalValue>,
                ConditionView,
            >(self.cycle(values).values[v]),
            !self.is_sequential(v) ==> self.cycle(values).values[v] == self.settle(
                values,
            ).values[v],
    {
        let settled = self.settle(values);
        self.lemma_settle_keeps_length(values, self.order.len());
        if self.is_sequential(v) {
            self.lemma_no_refusal_means_all_ok(settled.values, self.units.len(), v);
        }
    }

    /// A condition raised while the values settle ends the cycle there. The
    /// cycle reports that condition with its component; the values are those
    /// that the pass had reached; and every combinatorial component that had
    /// its turn before still shows what it computed in this pass.
    pub proof fn law_condition_keeps_earlier_outputs(self, values: Values, q: int, p: int)
        requires
            self.wf(),
            values.len() == self.units.len(),
            0 <= p < q < self.order.len(),
            self.settle_upto(values, q as nat).fault is None,
            !self.is_sequential(self.order[q] as int),
            self.output_of(self.order[q] as int, self.settle_upto(values, q as nat).values) is Err,
        ensures
            self.cycle(values).fault == Some(
                self.fault_of(
                    self.order[q],
                    self.output_of(
                        self.order[q] as int,
                        self.settle_upto(values, q as nat).values,
                    )->Err_0,
                ),
            ),
            self.cycle(values).values == self.settle_upto(values, q as nat).values,
            !self.is_sequential(self.order[p] as int) ==> self.output_of(
                self.order[p] as int,
                self.settle_upto(values, p as nat).values,
            ) == Ok::<Seq<SignalValue>, ConditionView>(
                self.cycle(values).values[self.order[p] as int],
            ),
    {
        let stop = (q + 1) as nat;
        assert(self.settle_upto(values, stop).fault is Some) by {
            assert(self.order[stop - 1] == self.order[q]);
            assert(self.settle_upto(values, (stop - 1) as nat) == self.settle_upto(
                values,
                q as nat,
            ));
        }
        self.lemma_settle_stops(values, stop, self.order.len());
        if !self.is_sequential(self.order[p] as int) {
            self.lemma_settle_leaves_earlier(values, p, (p + 1) as nat, q as nat);
            self.lemma_settle_keeps_length(values, p as nat);
            let then = self.settle_upto(values, p as nat);
            assert(then.fault is None) by {
                if then.fault is Some {
                    self.lemma_settle_stops(values, p as nat, q as nat);
                }
            }
            assert(self.order[(p + 1) - 1] == self.order[p]);
            assert(self.settle_upto(values, ((p + 1) - 1) as nat) == then);
            assert(self.settle_upto(values, (p + 1) as nat).fault is None) by {
                if self.settle_upto(values, (p + 1) as nat).fault is Some {
                    self.lemma_settle_stops(values, (p + 1) as nat, q as nat);
                }
            }
        }
    }
}

impl<C: Component> Machine<C> {
    /// In a circuit without sequential components, where constants are the
    /// only sources, a second cycle leaves the values that the first cycle
    /// left, and ends as the first one did.
    pub proof fn law_cycle_without_registers_is_idempotent(self)
        requires
            self.circuit.wf(),
            self.values.len() == self.circuit.units.len(),
            forall|v: int| 0 <= v < self.circuit.units.len() ==> !self.circuit.is_sequential(v),
        ensures
            self.clocked().clocked().values == self.clocked().values,
            self.clocked().clocked().fault == self.clocked().fault,
    {
        let circuit = self.circuit;
        circuit.lemma_cycle_without_registers(self.values);
        circuit.lemma_settle_keeps_length(self.values, circuit.order.len());
        circuit.lemma_cycle_without_registers(circuit.settle(self.values).values);
        circuit.law_settling_is_idempotent(self.values);
    }

    /// Undoing goes by the values and the history alone: two simulators that
    /// agree in them agree in them after the same number of cycles undone.
    proof fn lemma_undone_ignores_condition(self, other: Machine<C>, n: nat)
        requires
            self.values == other.values,
            self.history == other.history,
        ensures
            self.undone(n).values == other.undone(n).values,
            self.undone(n).history == other.undone(n).history,
        decreases n,
    {
        if n > 0 {
            self.unclocked().lemma_undone_ignores_condition(other.unclocked(), (n - 1) as nat);
        }
    }

    /// Undoing the cycle just run gives back the values and the history
    /// from before it.
    pub proof fn lemma_undo_one(self)
        ensures
            self.clocked().unclocked().values == self.values,
            self.clocked().unclocked().history == self.history,
    {
        assert(self.history.push(self.values).drop_last() =~= self.history);
    }

    /// Undoing as many cycles as were run gives back the values from before
    /// the first of them, value for value, and the history from then.
    /// Cycles that a condition stopped count like the others.
    pub proof fn law_undo_round_trip(self, n: nat)
        ensures
            self.after(n).undone(n).values == self.values,
            self.after(n).undone(n).history == self.history,
        decreases n,
    {
        if n > 0 {
            let before = self.after((n - 1) as nat);
            before.lemma_undo_one();
            before.clocked().unclocked().lemma_undone_ignores_condition(before, (n - 1) as nat);
            self.law_undo_round_trip((n - 1) as nat);
        }
    }

    /// A reset after a reset changes nothing; after a reset there is nothing
    /// to undo, and undoing changes nothing.
    pub proof fn law_reset_is_idempotent(self)
        ensures
            self.restarted().restarted() == self.restarted(),
            self.restarted().history.len() == 0,
            self.restarted().unclocked() == self.restarted(),
    {
    }

    /// A register that is fed a function of its own output steps through the
    /// iterates of that function, one for each cycle.
    ///
    /// `v` is a component of the circuit, `f` a function on its outputs, and
    /// `steady` a set of values that holds the simulator's and that cycles do
    /// not lead out of. If every cycle from steady values runs through and
    /// leaves on `v` the function of what `v` held, then after `n` cycles `v`
    /// holds the function applied `n` times to what it held at first.
    pub proof fn law_register_iterates(
        self,
        v: int,
        f: spec_fn(Seq<SignalValue>) -> Seq<SignalValue>,
        steady: spec_fn(Values) -> bool,
        n: nat,
    )
        requires
            steady(self.values),
            forall|w: Values|
                steady(w) ==> {
                    &&& (#[trigger] self.circuit.cycle(w)).fault is None
                    &&& steady(self.circuit.cycle(w).values)
                    &&& self.circuit.cycle(w).values[v] == f(w[v])
                },
        ensures
            self.after(n).circuit == self.circuit,
            steady(self.after(n).values),
            self.after(n).fault is None || n == 0,
            self.after(n).values[v] == iterate(f, n, self.values[v]),
        decreases n,
    {
        if n > 0 {
            self.law_register_iterates(v, f, steady, (n - 1) as nat);
        }
    }
}

} // verus!

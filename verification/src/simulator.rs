//! The simulator: a planned circuit, the values it holds, and the history
//! that lets cycles be undone.

use crate::component::Component;
use crate::error::{fault_view, BuildError, Fault};
use crate::model::Machine;
use crate::netlist::{
    all_resolved, binds, buildable, has_feedback_loop, resolves, unique_ids, Slot,
};
use crate::plan::Plan;
use crate::ports::Input;
use crate::signal::SignalValue;
use crate::state::{History, SimState};
use crate::store::ComponentStore;
use vstd::prelude::*;

verus! {

/// A circuit that runs. Between calls the simulator is idle; each call is
/// one step: a cycle forward, a cycle back, or a reset.
pub struct Simulator<C: Component> {
    plan: Plan<C>,
    state: SimState,
    history: History,
    condition: Option<Fault>,
}

impl<C: Component> View for Simulator<C> {
    type V = Machine<C>;

    closed spec fn view(&self) -> Machine<C> {
        Machine {
            circuit: self.plan@,
            values: self.state@,
            history: self.history@,
            fault: fault_view(self.condition),
        }
    }
}

impl<C: Component> Simulator<C> {
    /// The simulator's plan is consistent, its circuit is well formed, and
    /// the values and the history have the circuit's shape.
    pub closed spec fn wf(&self) -> bool {
        self.plan.wf() && self@.wf()
    }

    /// A simulator that is well formed stands for a machine that is.
    pub proof fn lemma_wf(&self)
        requires
            self.wf(),
        ensures
            self@.wf(),
    {
    }

    /// Plans the circuit and brings it to its start: every output holds its
    /// start value, and the combinatorial values have settled once, so that
    /// what the constants drive can be read before the first cycle. A
    /// condition raised on the way is recorded; the circuit is built all the
    /// same.
    ///
    /// A circuit that cannot be planned gives the error that says why.
    pub fn build(store: ComponentStore<C>) -> (r: Result<Simulator<C>, BuildError>)
        ensures
            match r {
                Ok(sim) => {
                    &&& sim.wf()
                    &&& sim@.wf()
                    &&& sim@.circuit.units == store.store@
                    &&& sim@ == Machine::started(sim@.circuit)
                },
                Err(e) => e.explains(store.netlist()),
            },
            r is Ok <==> buildable(store.netlist()),
            r matches Err(BuildError::DuplicateId(_)) <==> !unique_ids(store.netlist()),
            r matches Err(BuildError::UnresolvedInput { .. }) <==> unique_ids(store.netlist())
                && !all_resolved(store.netlist()),
            r matches Err(BuildError::CombinatorialCycle(_)) <==> unique_ids(store.netlist())
                && all_resolved(store.netlist()) && has_feedback_loop(store.netlist()),
    {
        match Plan::new(store) {
            Ok(plan) => {
                let mut state = plan.initial_state();
                let condition = plan.propagate(&mut state);
                Ok(Simulator { plan, state, history: History::new(), condition })
            },
            Err(e) => Err(e),
        }
    }

    /// Runs one clock cycle. The values before the cycle go on top of the
    /// history. Then the combinatorial values settle, and if no condition
    /// stopped them, the sequential components take in their inputs.
    ///
    /// A condition ends the cycle where it is raised and is returned with
    /// its component; the values written before it stay. The simulator goes
    /// on from there with the next call.
    pub fn clock(&mut self) -> (r: Result<(), Fault>)
        requires
            old(self).wf(),
        ensures
            final(self).wf(),
            final(self)@ == old(self)@.clocked(),
            match r {
                Ok(_) => final(self)@.fault is None,
                Err(fault) => final(self)@.fault == Some(fault@),
            },
    {
        let snapshot = self.state.snapshot();
        self.history.push(snapshot);
        let mut condition = self.plan.propagate(&mut self.state);
        if condition.is_none() {
            condition = self.plan.latch(&mut self.state);
        }
        let r = match &condition {
            Some(fault) => Err(fault.clone()),
            None => Ok(()),
        };
        self.condition = condition;
        assert(self@.history =~= old(self)@.history.push(old(self)@.values));
        r
    }

    /// Undoes the last cycle: the values become those on top of the history,
    /// which are taken off. With nothing to undo, nothing changes.
    pub fn un_clock(&mut self)
        requires
            old(self).wf(),
        ensures
            final(self).wf(),
            final(self)@ == old(self)@.unclocked(),
    {
        match self.history.pop() {
            Some(state) => {
                assert(old(self)@.circuit.shaped(old(self)@.history[old(self)@.history.len() - 1]));
                self.state = state;
            },
            None => {},
        }
    }

    /// Brings the circuit back to its start: every output holds its start
    /// value, the history is empty, and the combinatorial values have
    /// settled once. A condition raised on the way is recorded and returned.
    pub fn reset(&mut self) -> (r: Result<(), Fault>)
        requires
            old(self).wf(),
        ensures
            final(self).wf(),
            final(self)@ == old(self)@.restarted(),
            match r {
                Ok(_) => final(self)@.fault is None,
                Err(fault) => final(self)@.fault == Some(fault@),
            },
    {
        self.state = self.plan.initial_state();
        self.history.clear();
        let condition = self.plan.propagate(&mut self.state);
        let r = match &condition {
            Some(fault) => Err(fault.clone()),
            None => Ok(()),
        };
        self.condition = condition;
        r
    }

    /// The values that the circuit holds.
    pub fn state(&self) -> (r: &SimState)
        ensures
            r@ == self@.values,
    {
        &self.state
    }

    /// The values before each cycle that can be undone.
    pub fn history(&self) -> (r: &History)
        ensures
            r@ == self@.history,
    {
        &self.history
    }

    /// The number of cycles that can be undone.
    pub fn cycle(&self) -> (r: usize)
        ensures
            r == self@.history.len(),
    {
        self.history.len()
    }

    /// The condition that the last cycle, start or reset recorded.
    pub fn condition(&self) -> (r: &Option<Fault>)
        ensures
            fault_view(*r) == self@.fault,
    {
        &self.condition
    }

    /// The plan that the simulator runs.
    pub fn plan(&self) -> (r: &Plan<C>)
        ensures
            r@ == self@.circuit,
            self.wf() ==> r.wf(),
    {
        &self.plan
    }

    /// Gives the components back, to be rewired and built again.
    pub fn into_store(self) -> (r: ComponentStore<C>)
        ensures
            r.store@ == self@.circuit.units,
    {
        self.plan.into_store()
    }

    /// The value on the output that `input` names, if the circuit has such
    /// an output.
    pub fn get_input_value(&self, input: &Input) -> (r: Option<SignalValue>)
        requires
            self.wf(),
        ensures
            match r {
                Some(value) => exists|slot: Slot|
                    #[trigger] binds(self@.circuit.netlist(), input@, slot) && value
                        == self@.values[slot.unit as int][slot.port as int],
                None => !resolves(self@.circuit.netlist(), input@),
            },
    {
        match self.plan.slot_of(input) {
            Some(slot) => {
                let r = self.state.get(slot);
                assert(r is Some);
                r
            },
            None => None,
        }
    }
}

} // verus!

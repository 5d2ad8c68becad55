//! The values of a running circuit, and the stack of earlier values that
//! lets a cycle be undone.

use crate::model::Values;
use crate::netlist::Slot;
use crate::ports::views;
use crate::signal::SignalValue;
use vstd::prelude::*;

verus! {

/// The value on every output of every component: one list for each
/// component, in the circuit's order, with one value for each of its outputs.
#[derive(Debug)]
pub struct SimState {
    pub values: Vec<Vec<SignalValue>>,
}

impl View for SimState {
    type V = Values;

    open spec fn view(&self) -> Values {
        views(self.values@)
    }
}

/// A copy of a list of values.
pub fn copy_values(values: &Vec<SignalValue>) -> (r: Vec<SignalValue>)
    ensures
        r@ == values@,
{
    let mut r: Vec<SignalValue> = Vec::new();
    let mut k: usize = 0;
    while k < values.len()
        invariant
            k <= values@.len(),
            r@.len() == k,
            forall|j: int| 0 <= j < k ==> r@[j] == values@[j],
        decreases values@.len() - k,
    {
        r.push(values[k]);
        k += 1;
    }
    assert(r@ =~= values@);
    r
}

impl SimState {
    /// An independent copy of the values.
    pub fn snapshot(&self) -> (r: SimState)
        ensures
            r@ == self@,
    {
        let mut values: Vec<Vec<SignalValue>> = Vec::new();
        let mut v: usize = 0;
        while v < self.values.len()
            invariant
                v <= self.values@.len(),
                values@.len() == v,
                forall|u: int| 0 <= u < v ==> (#[trigger] values@[u])@ == self.values@[u]@,
            decreases self.values@.len() - v,
        {
            values.push(copy_values(&self.values[v]));
            v += 1;
        }
        let r = SimState { values };
        assert(r@ =~= self@);
        r
    }

    /// The value on an output, if the circuit has that output.
    pub fn get(&self, slot: Slot) -> (r: Option<SignalValue>)
        ensures
            r == if slot.unit < self@.len() && slot.port < self@[slot.unit as int].len() {
                Some(self@[slot.unit as int][slot.port as int])
            } else {
                None
            },
    {
        if slot.unit < self.values.len() {
            if slot.port < self.values[slot.unit].len() {
                return Some(self.values[slot.unit][slot.port]);
            }
        }
        None
    }

    /// Replaces the values on the outputs of component `unit`.
    pub fn set_outputs(&mut self, unit: usize, outputs: Vec<SignalValue>)
        requires
            unit < old(self)@.len(),
        ensures
            final(self)@ == old(self)@.update(unit as int, outputs@),
    {
        self.values.set(unit, outputs);
        assert(self@ =~= old(self)@.update(unit as int, outputs@));
    }
}

/// The values that a circuit held before each of the cycles that can still
/// be undone, the oldest first.
#[derive(Debug)]
pub struct History {
    pub snapshots: Vec<SimState>,
}

impl View for History {
    type V = Seq<Values>;

    open spec fn view(&self) -> Seq<Values> {
        views(self.snapshots@)
    }
}

impl History {
    /// The empty history.
    pub fn new() -> (r: History)
        ensures
            r@ == Seq::<Values>::empty(),
    {
        let r = History { snapshots: Vec::new() };
        assert(r@ =~= Seq::<Values>::empty());
        r
    }

    /// The number of cycles that can be undone.
    pub fn len(&self) -> (r: usize)
        ensures
            r == self@.len(),
    {
        self.snapshots.len()
    }

    /// Puts the values before a cycle on top.
    pub fn push(&mut self, state: SimState)
        ensures
            final(self)@ == old(self)@.push(state@),
    {
        self.snapshots.push(state);
        assert(self@ =~= old(self)@.push(state@));
    }

    /// Takes the values before the last cycle off the top, if there are any.
    pub fn pop(&mut self) -> (r: Option<SimState>)
        ensures
            match r {
                Some(state) => old(self)@.len() > 0 && state@ == old(self)@.last() && final(self)@
                    == old(self)@.drop_last(),
                None => old(self)@.len() == 0 && final(self)@ == old(self)@,
            },
    {
        let r = self.snapshots.pop();
        assert(r is Some ==> self@ =~= old(self)@.drop_last());
        assert(r is None ==> self@ =~= old(self)@);
        r
    }

    /// Forgets all the cycles.
    pub fn clear(&mut self)
        ensures
            final(self)@ == Seq::<Values>::empty(),
    {
        self.snapshots.clear();
        assert(self@ =~= Seq::<Values>::empty());
    }
}

} // verus!

//! A watch on one output that stops the cycle when a chosen value shows.

use crate::component::{read, signal_at, Component, Condition, ConditionView, Position};
use crate::ports::{
    is_named, Id, Input, InputPort, InputPortView, OutputType, Ports, PortsView,
};
use crate::signal::SignalValue;
use vstd::prelude::*;

verus! {

pub const HALT_IN_ID: &'static str = "in";

/// What a watch reports when the value it waits for shows.
pub const HALT_REACHED: &'static str = "halt: the watched value was reached";

/// Watches the output `input`. In a cycle in which that output holds
/// `stop_on`, the watch raises a halt; in every other cycle it does nothing.
/// It has no outputs.
#[derive(Clone, Debug)]
pub struct Halt {
    pub id: Id,
    pub pos: Position,
    pub input: Input,
    pub stop_on: SignalValue,
}

impl Component for Halt {
    open spec fn id(&self) -> Seq<char> {
        self.id@
    }

    open spec fn ports(&self) -> PortsView {
        PortsView {
            inputs: seq![InputPortView { port_id: HALT_IN_ID@, input: self.input@ }],
            out_type: OutputType::Combinatorial,
            outputs: Seq::empty(),
        }
    }

    open spec fn initial(&self) -> Seq<SignalValue> {
        Seq::empty()
    }

    open spec fn eval(&self, inputs: Seq<SignalValue>, stored: Seq<SignalValue>) -> Result<
        Seq<SignalValue>,
        ConditionView,
    > {
        if signal_at(inputs, 0) == self.stop_on {
            Err(ConditionView::Halt(HALT_REACHED@))
        } else {
            Ok(Seq::empty())
        }
    }

    fn get_id_ports(&self) -> (r: (Id, Ports)) {
        let watched = InputPort::new(HALT_IN_ID, self.input.clone());
        let ports = Ports::new(vec![&watched], OutputType::Combinatorial, Vec::new());
        assert(ports@.inputs =~= self.ports().inputs);
        assert(ports@.outputs =~= self.ports().outputs);
        (self.id.clone(), ports)
    }

    fn set_id_port(&mut self, target_port_id: Id, new_input: Input) {
        let ghost before = *self;
        if is_named(&target_port_id, HALT_IN_ID) {
            self.input = new_input;
        }
        assert(self.ports().inputs =~= before.ports().rewired(
            target_port_id@,
            new_input@,
        ).inputs);
    }

    fn clock(&self, inputs: &Vec<SignalValue>, stored: &Vec<SignalValue>) -> (r: Result<
        Vec<SignalValue>,
        Condition,
    >) {
        if read(inputs, 0) == self.stop_on {
            Err(Condition::Halt(HALT_REACHED.to_owned()))
        } else {
            Ok(Vec::new())
        }
    }

    fn reset(&self) -> (r: Vec<SignalValue>) {
        Vec::new()
    }
}

impl Halt {
    /// The watch `id` at `pos` on the output `input`, waiting for `stop_on`.
    pub fn new(id: &str, pos: Position, input: Input, stop_on: SignalValue) -> (r: Self)
        ensures
            r.id@ == id@,
            r.pos == pos,
            r.input == input,
            r.stop_on == stop_on,
    {
        Halt { id: id.to_owned(), pos, input, stop_on }
    }
}

} // verus!

//! A wire on the drawing: it shows a connection and computes nothing.

use crate::component::{Component, Condition, ConditionView, Position};
use crate::ports::{Id, Input, InputPort, InputPortView, OutputType, Ports, PortsView};
use crate::signal::SignalValue;
use vstd::prelude::*;

verus! {

pub const WIRE_IN_ID: &'static str = "in";

/// A line through the points `pos` that shows the output `input_id` is bound
/// to. It has no outputs. The last two fields are the editor's: whether the
/// wire's properties are open, and the name being typed there.
#[derive(Clone, Debug)]
pub struct Wire {
    pub id: Id,
    pub pos: Vec<Position>,
    pub input_id: InputPort,
    pub properties_window: bool,
    pub id_tmp: Id,
}

impl Wire {
    /// The wire `id` through the points `pos` from the output `input`.
    pub fn new(id: String, pos: Vec<Position>, input: Input) -> (r: Self)
        ensures
            r.id == id,
            r.pos == pos,
            r.input_id@ == (InputPortView { port_id: WIRE_IN_ID@, input: input@ }),
            !r.properties_window,
            r.id_tmp == id,
    {
        Wire {
            id: id.clone(),
            pos,
            input_id: InputPort::new(WIRE_IN_ID, input),
            properties_window: false,
            id_tmp: id,
        }
    }
}

impl Component for Wire {
    open spec fn id(&self) -> Seq<char> {
        self.id@
    }

    open spec fn ports(&self) -> PortsView {
        PortsView {
            inputs: seq![self.input_id@],
            out_type: OutputType::Combinatorial,
            outputs: Seq::empty(),
        }
    }

    open spec fn initial(&self) -> Seq<SignalValue> {
        Seq::empty()
    }

    open spec fn eval(&self, inputs: Seq<SignalValue>, stored: Seq<SignalValue>) -> Result<
        Seq<SignalValue>,
        ConditionView,
    > {
        Ok(Seq::empty())
    }

    fn get_id_ports(&self) -> (r: (Id, Ports)) {
        let ports = Ports::new(vec![&self.input_id], OutputType::Combinatorial, Vec::new());
        assert(ports@.inputs =~= self.ports().inputs);
        assert(ports@.outputs =~= self.ports().outputs);
        (self.id.clone(), ports)
    }

    fn set_id_port(&mut self, target_port_id: Id, new_input: Input) {
        let ghost before = *self;
        if self.input_id.port_id == target_port_id {
            self.input_id.input = new_input;
        }
        assert(self.ports().inputs =~= before.ports().rewired(
            target_port_id@,
            new_input@,
        ).inputs);
    }

    fn clock(&self, inputs: &Vec<SignalValue>, stored: &Vec<SignalValue>) -> (r: Result<
        Vec<SignalValue>,
        Condition,
    >) {
        Ok(Vec::new())
    }

    fn reset(&self) -> (r: Vec<SignalValue>) {
        Vec::new()
    }
}

} // verus!

//! A register: the one kind of unit that keeps a value between cycles.

use crate::component::{read, signal_at, Component, Condition, ConditionView, Position};
use crate::ports::{
    is_named, Id, Input, InputPort, InputPortView, OutputType, Ports, PortsView,
};
use crate::signal::SignalValue;
use vstd::prelude::*;

verus! {

pub const REGISTER_R_IN_ID: &'static str = "r_in";

pub const REGISTER_OUT_ID: &'static str = "out";

/// Holds one value. Through a cycle it shows the value it took in at the end
/// of the cycle before; before the first cycle it shows `init`.
#[derive(Clone, Debug)]
pub struct Register {
    pub id: Id,
    pub pos: Position,
    pub r_in: Input,
    pub init: SignalValue,
}

impl Component for Register {
    open spec fn id(&self) -> Seq<char> {
        self.id@
    }

    open spec fn ports(&self) -> PortsView {
        PortsView {
            inputs: seq![InputPortView { port_id: REGISTER_R_IN_ID@, input: self.r_in@ }],
            out_type: OutputType::Sequential,
            outputs: seq![REGISTER_OUT_ID@],
        }
    }

    open spec fn initial(&self) -> Seq<SignalValue> {
        seq![self.init]
    }

    open spec fn eval(&self, inputs: Seq<SignalValue>, stored: Seq<SignalValue>) -> Result<
        Seq<SignalValue>,
        ConditionView,
    > {
        Ok(seq![signal_at(inputs, 0)])
    }

    fn get_id_ports(&self) -> (r: (Id, Ports)) {
        let r_in = InputPort::new(REGISTER_R_IN_ID, self.r_in.clone());
        let ports = Ports::new(vec![&r_in], OutputType::Sequential, vec![REGISTER_OUT_ID]);
        assert(ports@.inputs =~= self.ports().inputs);
        assert(ports@.outputs =~= self.ports().outputs);
        (self.id.clone(), ports)
    }

    fn set_id_port(&mut self, target_port_id: Id, new_input: Input) {
        let ghost before = *self;
        if is_named(&target_port_id, REGISTER_R_IN_ID) {
            self.r_in = new_input;
        }
        assert(self.ports().inputs =~= before.ports().rewired(
            target_port_id@,
            new_input@,
        ).inputs);
    }

    fn clock(&self, inputs: &Vec<SignalValue>, stored: &Vec<SignalValue>) -> (r: Result<
        Vec<SignalValue>,
        Condition,
    >) {
        let out = vec![read(inputs, 0)];
        assert(out@ =~= seq![signal_at(inputs@, 0)]);
        Ok(out)
    }

    fn reset(&self) -> (r: Vec<SignalValue>) {
        let r = vec![self.init];
        assert(r@ =~= self.initial());
        r
    }
}

impl Register {
    /// The register `id` at `pos` that takes in `r_in` and starts at `init`.
    pub fn new(id: &str, pos: Position, r_in: Input, init: SignalValue) -> (r: Self)
        ensures
            r.id@ == id@,
            r.pos == pos,
            r.r_in == r_in,
            r.init == init,
    {
        Register { id: id.to_owned(), pos, r_in, init }
    }
}

} // verus!

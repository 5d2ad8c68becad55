//! A source that always puts out the same value.

use crate::component::{Component, Condition, ConditionView, Position};
use crate::ports::{Id, Input, OutputType, Ports, PortsView};
use crate::signal::SignalValue;
use vstd::prelude::*;

verus! {

pub const CONSTANT_OUT_ID: &'static str = "out";

/// Puts out its value in every cycle. It has no inputs.
#[derive(Clone, Debug)]
pub struct Constant {
    pub id: Id,
    pub pos: Position,
    pub value: SignalValue,
}

impl Component for Constant {
    open spec fn id(&self) -> Seq<char> {
        self.id@
    }

    open spec fn ports(&self) -> PortsView {
        PortsView {
            inputs: Seq::empty(),
            out_type: OutputType::Combinatorial,
            outputs: seq![CONSTANT_OUT_ID@],
        }
    }

    open spec fn initial(&self) -> Seq<SignalValue> {
        seq![SignalValue::Unknown]
    }

    open spec fn eval(&self, inputs: Seq<SignalValue>, stored: Seq<SignalValue>) -> Result<
        Seq<SignalValue>,
        ConditionView,
    > {
        Ok(seq![self.value])
    }

    fn get_id_ports(&self) -> (r: (Id, Ports)) {
        let ports = Ports::new(Vec::new(), OutputType::Combinatorial, vec![CONSTANT_OUT_ID]);
        assert(ports@.inputs =~= self.ports().inputs);
        assert(ports@.outputs =~= self.ports().outputs);
        (self.id.clone(), ports)
    }

    fn set_id_port(&mut self, target_port_id: Id, new_input: Input) {
        assert(self.ports().inputs =~= self.ports().rewired(target_port_id@, new_input@).inputs);
    }

    fn clock(&self, inputs: &Vec<SignalValue>, stored: &Vec<SignalValue>) -> (r: Result<
        Vec<SignalValue>,
        Condition,
    >) {
        let out = vec![self.value];
        assert(out@ =~= seq![self.value]);
        Ok(out)
    }

    fn reset(&self) -> (r: Vec<SignalValue>) {
        let r = vec![SignalValue::Unknown];
        assert(r@ =~= self.initial());
        r
    }
}

impl Constant {
    /// The source `id` at `pos` that puts out `value`.
    pub fn new(id: &str, pos: Position, value: SignalValue) -> (r: Self)
        ensures
            r.id@ == id@,
            r.pos == pos,
            r.value == value,
    {
        Constant { id: id.to_owned(), pos, value }
    }
}

} // verus!

//! An adder.

use crate::component::{read, signal_at, Component, Condition, ConditionView, Position};
use crate::ports::{
    is_named, Id, Input, InputPort, InputPortView, OutputType, Ports, PortsView,
};
use crate::signal::SignalValue;
use vstd::prelude::*;

verus! {

pub const ADD_A_IN_ID: &'static str = "a_in";

pub const ADD_B_IN_ID: &'static str = "b_in";

pub const ADD_OUT_ID: &'static str = "out";

/// What an adder reports when one of its inputs holds no word.
pub const ADD_UNDRIVEN: &'static str = "add: an input holds no value";

/// Adds its two operands. The sum wraps round at 32 bits.
#[derive(Clone, Debug)]
pub struct Add {
    pub id: Id,
    pub pos: Position,
    pub a_in: Input,
    pub b_in: Input,
}

/// The two input ports of an adder have two names.
pub proof fn lemma_add_port_names_differ()
    ensures
        ADD_A_IN_ID@ != ADD_B_IN_ID@,
{
    reveal_strlit("a_in");
    reveal_strlit("b_in");
    assert(ADD_A_IN_ID@[0] != ADD_B_IN_ID@[0]);
}

impl Component for Add {
    open spec fn id(&self) -> Seq<char> {
        self.id@
    }

    open spec fn ports(&self) -> PortsView {
        PortsView {
            inputs: seq![
                InputPortView { port_id: ADD_A_IN_ID@, input: self.a_in@ },
                InputPortView { port_id: ADD_B_IN_ID@, input: self.b_in@ },
            ],
            out_type: OutputType::Combinatorial,
            outputs: seq![ADD_OUT_ID@],
        }
    }

    open spec fn initial(&self) -> Seq<SignalValue> {
        seq![SignalValue::Unknown]
    }

    open spec fn eval(&self, inputs: Seq<SignalValue>, stored: Seq<SignalValue>) -> Result<
        Seq<SignalValue>,
        ConditionView,
    > {
        match (signal_at(inputs, 0), signal_at(inputs, 1)) {
            (SignalValue::Data(a), SignalValue::Data(b)) => Ok(
                seq![SignalValue::Data(((a + b) % 0x1_0000_0000) as u32)],
            ),
            _ => Err(ConditionView::Error(ADD_UNDRIVEN@)),
        }
    }

    fn get_id_ports(&self) -> (r: (Id, Ports)) {
        let a = InputPort::new(ADD_A_IN_ID, self.a_in.clone());
        let b = InputPort::new(ADD_B_IN_ID, self.b_in.clone());
        let ports = Ports::new(vec![&a, &b], OutputType::Combinatorial, vec![ADD_OUT_ID]);
        assert(ports@.inputs =~= self.ports().inputs);
        assert(ports@.outputs =~= self.ports().outputs);
        (self.id.clone(), ports)
    }

    fn set_id_port(&mut self, target_port_id: Id, new_input: Input) {
        let ghost before = *self;
        if is_named(&target_port_id, ADD_A_IN_ID) {
            self.a_in = new_input;
        } else if is_named(&target_port_id, ADD_B_IN_ID) {
            self.b_in = new_input;
        }
        proof {
            lemma_add_port_names_differ();
        }
        assert(self.ports().inputs =~= before.ports().rewired(
            target_port_id@,
            new_input@,
        ).inputs);
    }

    fn clock(&self, inputs: &Vec<SignalValue>, stored: &Vec<SignalValue>) -> (r: Result<
        Vec<SignalValue>,
        Condition,
    >) {
        match (read(inputs, 0), read(inputs, 1)) {
            (SignalValue::Data(a), SignalValue::Data(b)) => {
                let out = vec![SignalValue::Data(a.wrapping_add(b))];
                assert(out@ =~= seq![SignalValue::Data(((a + b) % 0x1_0000_0000) as u32)]);
                Ok(out)
            },
            _ => Err(Condition::Error(ADD_UNDRIVEN.to_owned())),
        }
    }

    fn reset(&self) -> (r: Vec<SignalValue>) {
        let r = vec![SignalValue::Unknown];
        assert(r@ =~= self.initial());
        r
    }
}

impl Add {
    /// The adder `id` at `pos` with operands `a_in` and `b_in`.
    pub fn new(id: &str, pos: Position, a_in: Input, b_in: Input) -> (r: Self)
        ensures
            r.id@ == id@,
            r.pos == pos,
            r.a_in == a_in,
            r.b_in == b_in,
    {
        Add { id: id.to_owned(), pos, a_in, b_in }
    }
}

} // verus!

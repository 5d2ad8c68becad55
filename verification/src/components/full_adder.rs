//! An adder that can also subtract.

use crate::component::{read, Component, Condition, ConditionView, Position, signal_at};
use crate::ports::{
    is_named, Id, Input, InputPort, InputPortView, InputView, OutputType, Ports, PortsView,
};
use crate::signal::{SignalUnsigned, SignalValue};
use std::rc::Rc;
use vstd::prelude::*;

verus! {

pub const FULL_ADD_A_IN_ID: &'static str = "full_add_a_in";

pub const FULL_ADD_B_IN_ID: &'static str = "full_add_b_in";

pub const FULL_ADD_SUB_IN_ID: &'static str = "full_add_sub_in";

pub const FULL_ADD_OUT_ID: &'static str = "out";

/// What a full adder reports when one of its inputs holds no word.
pub const FULL_ADD_UNDRIVEN: &'static str = "full adder: an input holds no value";

/// Adds its two operands, or subtracts the second from the first where the
/// third input holds 1. The result wraps round at 32 bits.
#[derive(Debug)]
pub struct FullAdd {
    pub id: Id,
    pub pos: Position,
    pub a_in: Input,
    pub b_in: Input,
    pub sub_in: Input,
}

/// The word a full adder puts out: `a - b` where `sub` is 1, else `a + b`,
/// modulo 2^32.
pub open spec fn full_add(a: SignalUnsigned, b: SignalUnsigned, sub: SignalUnsigned) -> int {
    if sub == 1 {
        (a - b) % 0x1_0000_0000
    } else {
        (a + b) % 0x1_0000_0000
    }
}

/// Adding the complement of `b` and one more is subtracting `b`.
proof fn lemma_complement(b: u32)
    ensures
        b ^ 0xFFFF_FFFFu32 == 0xFFFF_FFFF - b,
        b ^ 0u32 == b,
        1u32 & 0xFFFF_FFFFu32 == 1,
        1u32 & 0u32 == 0,
{
    assert(b ^ 0xFFFF_FFFFu32 == 0xFFFF_FFFFu32 - b) by (bit_vector);
    assert(b ^ 0u32 == b) by (bit_vector);
    assert(1u32 & 0xFFFF_FFFFu32 == 1u32) by (bit_vector);
    assert(1u32 & 0u32 == 0u32) by (bit_vector);
}

/// The three input ports of a full adder have three names.
pub proof fn lemma_port_names_differ()
    ensures
        FULL_ADD_A_IN_ID@ != FULL_ADD_B_IN_ID@,
        FULL_ADD_A_IN_ID@ != FULL_ADD_SUB_IN_ID@,
        FULL_ADD_B_IN_ID@ != FULL_ADD_SUB_IN_ID@,
{
    reveal_strlit("full_add_a_in");
    reveal_strlit("full_add_b_in");
    reveal_strlit("full_add_sub_in");
    assert(FULL_ADD_A_IN_ID@[9] != FULL_ADD_B_IN_ID@[9]);
}

impl Clone for FullAdd {
    fn clone(&self) -> (r: Self)
        ensures
            r == *self,
    {
        FullAdd {
            id: self.id.clone(),
            pos: self.pos,
            a_in: self.a_in.clone(),
            b_in: self.b_in.clone(),
            sub_in: self.sub_in.clone(),
        }
    }
}

impl Component for FullAdd {
    open spec fn id(&self) -> Seq<char> {
        self.id@
    }

    open spec fn ports(&self) -> PortsView {
        PortsView {
            inputs: seq![
                InputPortView { port_id: FULL_ADD_A_IN_ID@, input: self.a_in@ },
                InputPortView { port_id: FULL_ADD_B_IN_ID@, input: self.b_in@ },
                InputPortView { port_id: FULL_ADD_SUB_IN_ID@, input: self.sub_in@ },
            ],
            out_type: OutputType::Combinatorial,
            outputs: seq![FULL_ADD_OUT_ID@],
        }
    }

    open spec fn initial(&self) -> Seq<SignalValue> {
        seq![SignalValue::Unknown]
    }

    open spec fn eval(&self, inputs: Seq<SignalValue>, stored: Seq<SignalValue>) -> Result<
        Seq<SignalValue>,
        ConditionView,
    > {
        match (signal_at(inputs, 0), signal_at(inputs, 1), signal_at(inputs, 2)) {
            (SignalValue::Data(a), SignalValue::Data(b), SignalValue::Data(sub)) => Ok(
                seq![SignalValue::Data(full_add(a, b, sub) as u32)],
            ),
            _ => Err(ConditionView::Error(FULL_ADD_UNDRIVEN@)),
        }
    }

    fn get_id_ports(&self) -> (r: (Id, Ports)) {
        let a = InputPort::new(FULL_ADD_A_IN_ID, self.a_in.clone());
        let b = InputPort::new(FULL_ADD_B_IN_ID, self.b_in.clone());
        let sub = InputPort::new(FULL_ADD_SUB_IN_ID, self.sub_in.clone());
        let ports = Ports::new(vec![&a, &b, &sub], OutputType::Combinatorial, vec![FULL_ADD_OUT_ID]);
        assert(ports@.inputs =~= self.ports().inputs);
        assert(ports@.outputs =~= self.ports().outputs);
        (self.id.clone(), ports)
    }

    fn set_id_port(&mut self, target_port_id: Id, new_input: Input) {
        let ghost before = *self;
        if is_named(&target_port_id, FULL_ADD_A_IN_ID) {
            self.a_in = new_input;
        } else if is_named(&target_port_id, FULL_ADD_B_IN_ID) {
            self.b_in = new_input;
        } else if is_named(&target_port_id, FULL_ADD_SUB_IN_ID) {
            self.sub_in = new_input;
        }
        proof {
            lemma_port_names_differ();
        }
        assert(self.ports().inputs =~= before.ports().rewired(
            target_port_id@,
            new_input@,
        ).inputs);
    }

    fn clock(&self, inputs: &Vec<SignalValue>, stored: &Vec<SignalValue>) -> (r: Result<
        Vec<SignalValue>,
        Condition,
    >) {
        match (read(inputs, 0), read(inputs, 1), read(inputs, 2)) {
            (SignalValue::Data(a), SignalValue::Data(b), SignalValue::Data(sub)) => {
                let mask: u32 = if sub == 1 {
                    0xFFFF_FFFF
                } else {
                    0x0000_0000
                };
                proof {
                    lemma_complement(b);
                }
                let j: u32 = a.wrapping_add(b ^ mask).wrapping_add(1 & mask);
                let out = vec![SignalValue::Data(j)];
                assert(out@ =~= seq![SignalValue::Data(full_add(a, b, sub) as u32)]);
                Ok(out)
            },
            _ => Err(Condition::Error(FULL_ADD_UNDRIVEN.to_owned())),
        }
    }

    fn reset(&self) -> (r: Vec<SignalValue>) {
        let r = vec![SignalValue::Unknown];
        assert(r@ =~= self.initial());
        r
    }
}

impl FullAdd {
    /// The full adder `id` at `pos` with operands `a_in` and `b_in`, switched
    /// to subtraction by `sub_in`.
    pub fn new(id: &str, pos: Position, a_in: Input, b_in: Input, sub_in: Input) -> (r: Self)
        ensures
            r.id@ == id@,
            r.pos == pos,
            r.a_in == a_in,
            r.b_in == b_in,
            r.sub_in == sub_in,
    {
        FullAdd { id: id.to_owned(), pos, a_in, b_in, sub_in }
    }

    /// A full adder for the editor's shelf: it is named `dummy`, stands at
    /// the origin, and has all three inputs bound to the output `out` of a
    /// component `dummy`.
    pub fn dummy() -> (r: Self)
        ensures
            r.id@ == "dummy"@,
            r.pos == (Position { x: 0, y: 0 }),
            r.a_in@ == (InputView { id: "dummy"@, field: "out"@ }),
            r.b_in == r.a_in,
            r.sub_in == r.a_in,
    {
        let dummy_input = Input::new("dummy", "out");
        FullAdd {
            id: "dummy".to_owned(),
            pos: Position { x: 0, y: 0 },
            a_in: dummy_input.clone(),
            b_in: dummy_input.clone(),
            sub_in: dummy_input,
        }
    }

    /// The same full adder behind a shared pointer.
    pub fn rc_new(id: &str, pos: Position, a_in: Input, b_in: Input, sub_in: Input) -> (r: Rc<
        Self,
    >)
        ensures
            r.id@ == id@,
            r.pos == pos,
            r.a_in == a_in,
            r.b_in == b_in,
            r.sub_in == sub_in,
    {
        Rc::new(FullAdd::new(id, pos, a_in, b_in, sub_in))
    }
}

} // verus!

//! A multiplexer: one of several inputs goes through, chosen by a number.

use crate::component::{read, signal_at, Component, Condition, ConditionView, Position};
use crate::ports::{views, Id, Input, InputPort, InputPortView, OutputType, Ports, PortsView};
use crate::signal::SignalValue;
use crate::text::{decimal, decimal_text};
use vstd::prelude::*;
use vstd::string::StringExecFns;

verus! {

pub const MUX_SELECT_ID: &'static str = "select";

pub const MUX_OUT_ID: &'static str = "out";

/// What a multiplexer reports when its selecting input holds no word.
pub const MUX_UNDRIVEN: &'static str = "mux: the select input holds no value";

/// What a multiplexer reports when the selecting number names no data input.
pub const MUX_OUT_OF_RANGE: &'static str = "mux: the select value names no input";

/// Puts out what its data input number `select` holds. The data inputs are
/// named `in0`, `in1`, and so on.
#[derive(Clone, Debug)]
pub struct Mux {
    pub id: Id,
    pub pos: Position,
    pub select: InputPort,
    pub m_in: Vec<InputPort>,
}

/// The name of data input number `i` of a multiplexer.
pub open spec fn mux_input_name(i: nat) -> Seq<char> {
    "in"@ + decimal(i)
}

impl Mux {
    /// The multiplexer `id` at `pos` that puts out the one of `m_in` that
    /// `select` names.
    pub fn new(id: String, pos: Position, select: Input, m_in: Vec<Input>) -> (r: Self)
        ensures
            r.id == id,
            r.pos == pos,
            r.select@ == (InputPortView { port_id: MUX_SELECT_ID@, input: select@ }),
            r.m_in@.len() == m_in@.len(),
            forall|i: int|
                0 <= i < m_in@.len() ==> #[trigger] r.m_in@[i]@ == (InputPortView {
                    port_id: mux_input_name(i as nat),
                    input: m_in@[i]@,
                }),
    {
        let mut v: Vec<InputPort> = Vec::new();
        let mut i: usize = 0;
        while i < m_in.len()
            invariant
                i <= m_in.len(),
                v@.len() == i,
                forall|j: int|
                    0 <= j < i ==> #[trigger] v@[j]@ == (InputPortView {
                        port_id: mux_input_name(j as nat),
                        input: m_in@[j]@,
                    }),
            decreases m_in.len() - i,
        {
            let name = "in".to_owned().concat(decimal_text(i).as_str());
            v.push(InputPort { port_id: name, input: m_in[i].clone() });
            i += 1;
        }
        Mux { id, pos, select: InputPort::new(MUX_SELECT_ID, select), m_in: v }
    }
}

impl Component for Mux {
    open spec fn id(&self) -> Seq<char> {
        self.id@
    }

    open spec fn ports(&self) -> PortsView {
        PortsView {
            inputs: seq![self.select@] + views(self.m_in@),
            out_type: OutputType::Combinatorial,
            outputs: seq![MUX_OUT_ID@],
        }
    }

    open spec fn initial(&self) -> Seq<SignalValue> {
        seq![SignalValue::Unknown]
    }

    open spec fn eval(&self, inputs: Seq<SignalValue>, stored: Seq<SignalValue>) -> Result<
        Seq<SignalValue>,
        ConditionView,
    > {
        match signal_at(inputs, 0) {
            SignalValue::Data(select) => if select < self.m_in@.len() {
                Ok(seq![signal_at(inputs, select + 1)])
            } else {
                Err(ConditionView::Error(MUX_OUT_OF_RANGE@))
            },
            SignalValue::Unknown => Err(ConditionView::Error(MUX_UNDRIVEN@)),
        }
    }

    fn get_id_ports(&self) -> (r: (Id, Ports)) {
        let mut inputs: Vec<&InputPort> = Vec::new();
        inputs.push(&self.select);
        let mut k: usize = 0;
        while k < self.m_in.len()
            invariant
                k <= self.m_in.len(),
                inputs@.len() == k + 1,
                inputs@[0]@ == self.select@,
                forall|j: int| 0 <= j < k ==> #[trigger] inputs@[j + 1]@ == self.m_in@[j]@,
            decreases self.m_in.len() - k,
        {
            inputs.push(&self.m_in[k]);
            k += 1;
        }
        let ports = Ports::new(inputs, OutputType::Combinatorial, vec![MUX_OUT_ID]);
        assert(ports@.inputs =~= self.ports().inputs) by {
            assert forall|j: int| 0 <= j < ports@.inputs.len() implies ports@.inputs[j]
                == self.ports().inputs[j] by {
                if j > 0 {
                    assert(inputs@[(j - 1) + 1]@ == self.m_in@[j - 1]@);
                }
            }
        }
        assert(ports@.outputs =~= self.ports().outputs);
        (self.id.clone(), ports)
    }

    fn set_id_port(&mut self, target_port_id: Id, new_input: Input) {
        let ghost before = *self;
        if self.select.port_id == target_port_id {
            self.select.input = new_input.clone();
        }
        let mut k: usize = 0;
        while k < self.m_in.len()
            invariant
                k <= self.m_in.len(),
                self.id == before.id,
                self.pos == before.pos,
                self.select@ == before.ports().rewired(target_port_id@, new_input@).inputs[0],
                self.m_in@.len() == before.m_in@.len(),
                forall|j: int|
                    0 <= j < k ==> #[trigger] self.m_in@[j]@ == before.ports().rewired(
                        target_port_id@,
                        new_input@,
                    ).inputs[j + 1],
                forall|j: int| k <= j < self.m_in@.len() ==> self.m_in@[j] == before.m_in@[j],
            decreases self.m_in.len() - k,
        {
            if self.m_in[k].port_id == target_port_id {
                let port = InputPort {
                    port_id: self.m_in[k].port_id.clone(),
                    input: new_input.clone(),
                };
                self.m_in.set(k, port);
            }
            k += 1;
        }
        assert(self.ports().inputs =~= before.ports().rewired(
            target_port_id@,
            new_input@,
        ).inputs) by {
            assert forall|j: int| 0 <= j < self.ports().inputs.len() implies self.ports().inputs[j]
                == before.ports().rewired(target_port_id@, new_input@).inputs[j] by {
                if j > 0 {
                    assert(self.m_in@[j - 1]@ == before.ports().rewired(
                        target_port_id@,
                        new_input@,
                    ).inputs[(j - 1) + 1]);
                }
            }
        }
    }

    fn clock(&self, inputs: &Vec<SignalValue>, stored: &Vec<SignalValue>) -> (r: Result<
        Vec<SignalValue>,
        Condition,
    >) {
        match read(inputs, 0) {
            SignalValue::Data(select) => {
                if (select as usize) < self.m_in.len() {
                    let out = vec![read(inputs, select as usize + 1)];
                    assert(out@ =~= seq![signal_at(inputs@, select + 1)]);
                    Ok(out)
                } else {
                    Err(Condition::Error(MUX_OUT_OF_RANGE.to_owned()))
                }
            },
            SignalValue::Unknown => Err(Condition::Error(MUX_UNDRIVEN.to_owned())),
        }
    }

    fn reset(&self) -> (r: Vec<SignalValue>) {
        let r = vec![SignalValue::Unknown];
        assert(r@ =~= self.initial());
        r
    }
}

} // verus!

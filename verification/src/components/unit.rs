//! One type for all the units that come with the engine, so that a circuit
//! can hold them side by side.

use crate::component::{Component, Condition, ConditionView};
use crate::components::add::Add;
use crate::components::constant::Constant;
use crate::components::full_adder::FullAdd;
use crate::components::halt::Halt;
use crate::components::mux::Mux;
use crate::components::register::Register;
use crate::components::wire::Wire;
use crate::ports::{Id, Input, Ports, PortsView};
use crate::signal::SignalValue;
use vstd::prelude::*;

verus! {

/// Any one of the units that come with the engine. It behaves as the unit
/// inside does.
#[derive(Clone, Debug)]
pub enum Unit {
    Constant(Constant),
    Add(Add),
    FullAdd(FullAdd),
    Mux(Mux),
    Wire(Wire),
    Register(Register),
    Halt(Halt),
}

impl Component for Unit {
    open spec fn id(&self) -> Seq<char> {
        match self {
            Unit::Constant(c) => c.id(),
            Unit::Add(c) => c.id(),
            Unit::FullAdd(c) => c.id(),
            Unit::Mux(c) => c.id(),
            Unit::Wire(c) => c.id(),
            Unit::Register(c) => c.id(),
            Unit::Halt(c) => c.id(),
        }
    }

    open spec fn ports(&self) -> PortsView {
        match self {
            Unit::Constant(c) => c.ports(),
            Unit::Add(c) => c.ports(),
            Unit::FullAdd(c) => c.ports(),
            Unit::Mux(c) => c.ports(),
            Unit::Wire(c) => c.ports(),
            Unit::Register(c) => c.ports(),
            Unit::Halt(c) => c.ports(),
        }
    }

    open spec fn initial(&self) -> Seq<SignalValue> {
        match self {
            Unit::Constant(c) => c.initial(),
            Unit::Add(c) => c.initial(),
            Unit::FullAdd(c) => c.initial(),
            Unit::Mux(c) => c.initial(),
            Unit::Wire(c) => c.initial(),
            Unit::Register(c) => c.initial(),
            Unit::Halt(c) => c.initial(),
        }
    }

    open spec fn eval(&self, inputs: Seq<SignalValue>, stored: Seq<SignalValue>) -> Result<
        Seq<SignalValue>,
        ConditionView,
    > {
        match self {
            Unit::Constant(c) => c.eval(inputs, stored),
            Unit::Add(c) => c.eval(inputs, stored),
            Unit::FullAdd(c) => c.eval(inputs, stored),
            Unit::Mux(c) => c.eval(inputs, stored),
            Unit::Wire(c) => c.eval(inputs, stored),
            Unit::Register(c) => c.eval(inputs, stored),
            Unit::Halt(c) => c.eval(inputs, stored),
        }
    }

    fn get_id_ports(&self) -> (r: (Id, Ports)) {
        match self {
            Unit::Constant(c) => c.get_id_ports(),
            Unit::Add(c) => c.get_id_ports(),
            Unit::FullAdd(c) => c.get_id_ports(),
            Unit::Mux(c) => c.get_id_ports(),
            Unit::Wire(c) => c.get_id_ports(),
            Unit::Register(c) => c.get_id_ports(),
            Unit::Halt(c) => c.get_id_ports(),
        }
    }

    fn set_id_port(&mut self, target_port_id: Id, new_input: Input) {
        match self {
            Unit::Constant(c) => c.set_id_port(target_port_id, new_input),
            Unit::Add(c) => c.set_id_port(target_port_id, new_input),
            Unit::FullAdd(c) => c.set_id_port(target_port_id, new_input),
            Unit::Mux(c) => c.set_id_port(target_port_id, new_input),
            Unit::Wire(c) => c.set_id_port(target_port_id, new_input),
            Unit::Register(c) => c.set_id_port(target_port_id, new_input),
            Unit::Halt(c) => c.set_id_port(target_port_id, new_input),
        }
    }

    fn clock(&self, inputs: &Vec<SignalValue>, stored: &Vec<SignalValue>) -> (r: Result<
        Vec<SignalValue>,
        Condition,
    >) {
        match self {
            Unit::Constant(c) => c.clock(inputs, stored),
            Unit::Add(c) => c.clock(inputs, stored),
            Unit::FullAdd(c) => c.clock(inputs, stored),
            Unit::Mux(c) => c.clock(inputs, stored),
            Unit::Wire(c) => c.clock(inputs, stored),
            Unit::Register(c) => c.clock(inputs, stored),
            Unit::Halt(c) => c.clock(inputs, stored),
        }
    }

    fn reset(&self) -> (r: Vec<SignalValue>) {
        match self {
            Unit::Constant(c) => c.reset(),
            Unit::Add(c) => c.reset(),
            Unit::FullAdd(c) => c.reset(),
            Unit::Mux(c) => c.reset(),
            Unit::Wire(c) => c.reset(),
            Unit::Register(c) => c.reset(),
            Unit::Halt(c) => c.reset(),
        }
    }
}

} // verus!

//! What every function unit of a circuit offers to the engine.

use crate::ports::{Id, Input, Ports, PortsView};
use crate::signal::SignalValue;
use vstd::prelude::*;

verus! {

/// Where the editor draws a component. The engine keeps the two coordinates
/// and hands them back; it never looks at them. Each is the bit pattern of a
/// single-precision number.
#[derive(Clone, Copy, Debug, PartialEq, Eq, Structural)]
pub struct Position {
    pub x: u32,
    pub y: u32,
}

impl Position {
    /// The position with the given coordinate patterns.
    pub fn new(x: u32, y: u32) -> (r: Position)
        ensures
            r == (Position { x, y }),
    {
        Position { x, y }
    }
}

/// What a component reports in place of its outputs when it cannot or will
/// not go on. The circuit stays usable.
#[derive(Debug)]
pub enum Condition {
    Warning(String),
    Error(String),
    Assert(String),
    Halt(String),
}

/// A [`Condition`] with its message as a character sequence.
pub enum ConditionView {
    Warning(Seq<char>),
    Error(Seq<char>),
    Assert(Seq<char>),
    Halt(Seq<char>),
}

impl View for Condition {
    type V = ConditionView;

    open spec fn view(&self) -> ConditionView {
        match self {
            Condition::Warning(m) => ConditionView::Warning(m@),
            Condition::Error(m) => ConditionView::Error(m@),
            Condition::Assert(m) => ConditionView::Assert(m@),
            Condition::Halt(m) => ConditionView::Halt(m@),
        }
    }
}

impl Clone for Condition {
    fn clone(&self) -> (r: Self)
        ensures
            r == *self,
    {
        match self {
            Condition::Warning(m) => Condition::Warning(m.clone()),
            Condition::Error(m) => Condition::Error(m.clone()),
            Condition::Assert(m) => Condition::Assert(m.clone()),
            Condition::Halt(m) => Condition::Halt(m.clone()),
        }
    }
}

impl Condition {
    /// The text that the component gave.
    pub fn message(&self) -> (r: &String)
        ensures
            r@ == self@.message(),
    {
        match self {
            Condition::Warning(m) => m,
            Condition::Error(m) => m,
            Condition::Assert(m) => m,
            Condition::Halt(m) => m,
        }
    }
}

impl ConditionView {
    /// The text that the component gave.
    pub open spec fn message(self) -> Seq<char> {
        match self {
            ConditionView::Warning(m) => m,
            ConditionView::Error(m) => m,
            ConditionView::Assert(m) => m,
            ConditionView::Halt(m) => m,
        }
    }
}

/// The value on input `k`, or `Unknown` where the component was handed fewer
/// values than that.
pub open spec fn signal_at(inputs: Seq<SignalValue>, k: int) -> SignalValue {
    if 0 <= k < inputs.len() {
        inputs[k]
    } else {
        SignalValue::Unknown
    }
}

/// The value on input `k`, or `Unknown` where there are fewer values than that.
pub fn read(inputs: &Vec<SignalValue>, k: usize) -> (r: SignalValue)
    ensures
        r == signal_at(inputs@, k as int),
{
    if k < inputs.len() {
        inputs[k]
    } else {
        SignalValue::Unknown
    }
}

/// Whether an evaluation's result stands for the given mathematical result.
pub open spec fn same_result(
    got: Result<Vec<SignalValue>, Condition>,
    expected: Result<Seq<SignalValue>, ConditionView>,
) -> bool {
    match got {
        Ok(values) => expected == Ok::<Seq<SignalValue>, ConditionView>(values@),
        Err(condition) => expected == Err::<Seq<SignalValue>, ConditionView>(condition@),
    }
}

/// A function unit of a circuit.
///
/// A unit has a name, a surface of ports, start values for its outputs, and a
/// function from input values to output values. The engine reads the values
/// on the unit's inputs, in the order of its input ports, and stores what the
/// unit returns in the unit's outputs, in the order of its output names.
///
/// A combinatorial unit is handed no stored values: its outputs depend on its
/// inputs alone. A sequential unit is handed the values that its outputs hold,
/// and returns the values they hold from the next cycle on.
pub trait Component: Sized {
    /// The unit's name.
    spec fn id(&self) -> Seq<char>;

    /// The unit's surface.
    spec fn ports(&self) -> PortsView;

    /// What the unit's outputs hold before the first cycle and after a reset.
    spec fn initial(&self) -> Seq<SignalValue>;

    /// What the unit computes from the values on its inputs and, for a
    /// sequential unit, the values its outputs hold.
    spec fn eval(&self, inputs: Seq<SignalValue>, stored: Seq<SignalValue>) -> Result<
        Seq<SignalValue>,
        ConditionView,
    >;

    /// The unit's name and surface.
    fn get_id_ports(&self) -> (r: (Id, Ports))
        ensures
            r.0@ == self.id(),
            r.1@ == self.ports(),
    ;

    /// Binds the input port named `target_port_id` to `new_input`. A name
    /// that no input port of the unit has changes nothing. The unit's name,
    /// outputs, start values and function stay as they are.
    fn set_id_port(&mut self, target_port_id: Id, new_input: Input)
        ensures
            final(self).id() == old(self).id(),
            final(self).ports() == old(self).ports().rewired(target_port_id@, new_input@),
            final(self).initial() == old(self).initial(),
            forall|inputs: Seq<SignalValue>, stored: Seq<SignalValue>|
                #[trigger] final(self).eval(inputs, stored) == old(self).eval(inputs, stored),
    ;

    /// Evaluates the unit: one value for each of its outputs, or a condition.
    fn clock(&self, inputs: &Vec<SignalValue>, stored: &Vec<SignalValue>) -> (r: Result<
        Vec<SignalValue>,
        Condition,
    >)
        ensures
            same_result(r, self.eval(inputs@, stored@)),
            r matches Ok(values) ==> values@.len() == self.ports().outputs.len(),
    ;

    /// The start values of the unit's outputs, one for each.
    fn reset(&self) -> (r: Vec<SignalValue>)
        ensures
            r@ == self.initial(),
            r@.len() == self.ports().outputs.len(),
    ;
}

} // verus!

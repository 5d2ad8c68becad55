//! The texts that a drawing of the circuit shows for values: the name of an
//! operation, and the value on an input.

use crate::signal::{SignalUnsigned, SignalValue};
use crate::text::{hexadecimal, hexadecimal_text};
use vstd::prelude::*;
use vstd::string::StringExecFns;

verus! {

/// The name of the arithmetic operation that a number selects.
pub open spec fn op_name_of(op: SignalUnsigned) -> Seq<char> {
    if op == 0 {
        "ADD"@
    } else if op == 1 {
        "ADDU"@
    } else if op == 2 {
        "SUB"@
    } else if op == 3 {
        "SUBU"@
    } else if op == 4 {
        "AND"@
    } else if op == 5 {
        "OR"@
    } else if op == 6 {
        "XOR"@
    } else if op == 7 {
        "NOR"@
    } else if op == 8 {
        "DONOTHING"@
    } else if op == 10 {
        "SLT"@
    } else if op == 11 {
        "SLTU"@
    } else if op == 12 {
        "SLL"@
    } else if op == 13 {
        "SRL"@
    } else if op == 14 {
        "SRA"@
    } else if op == 15 {
        "LUI"@
    } else {
        "UNDEF"@
    }
}

/// The name of the arithmetic operation that a number selects.
pub fn op_name(op: SignalUnsigned) -> (r: &'static str)
    ensures
        r@ == op_name_of(op),
{
    if op == 0 {
        "ADD"
    } else if op == 1 {
        "ADDU"
    } else if op == 2 {
        "SUB"
    } else if op == 3 {
        "SUBU"
    } else if op == 4 {
        "AND"
    } else if op == 5 {
        "OR"
    } else if op == 6 {
        "XOR"
    } else if op == 7 {
        "NOR"
    } else if op == 8 {
        "DONOTHING"
    } else if op == 10 {
        "SLT"
    } else if op == 11 {
        "SLTU"
    } else if op == 12 {
        "SLL"
    } else if op == 13 {
        "SRL"
    } else if op == 14 {
        "SRA"
    } else if op == 15 {
        "LUI"
    } else {
        "UNDEF"
    }
}

/// The two lines drawn on an arithmetic unit: what it is, and the operation
/// that is selected, or a note that no simulation runs.
pub open spec fn alu_label_of(op: Option<SignalUnsigned>) -> Seq<char> {
    match op {
        Some(number) => "ALU\n"@ + op_name_of(number),
        None => "ALU\n"@ + "no sim"@,
    }
}

/// The two lines drawn on an arithmetic unit.
pub fn alu_label(op: Option<SignalUnsigned>) -> (r: String)
    ensures
        r@ == alu_label_of(op),
{
    match op {
        Some(number) => "ALU\n".to_owned().concat(op_name(number)),
        None => "ALU\n".to_owned().concat("no sim"),
    }
}

/// A value as the drawing shows it: a word in hexadecimal behind `0x`, and
/// for an output that holds no word the failure to read it.
pub open spec fn value_text_of(value: SignalValue) -> Seq<char> {
    match value {
        SignalValue::Data(word) => "0x"@ + hexadecimal(word as nat),
        SignalValue::Unknown => "Err(ConversionError)"@,
    }
}

/// A value as the drawing shows it.
pub fn value_text(value: SignalValue) -> (r: String)
    ensures
        r@ == value_text_of(value),
{
    match value {
        SignalValue::Data(word) => "0x".to_owned().concat(hexadecimal_text(word).as_str()),
        SignalValue::Unknown => "Err(ConversionError)".to_owned(),
    }
}

/// The texts of several values, one behind the other.
pub open spec fn values_text_of(values: Seq<SignalValue>) -> Seq<char>
    decreases values.len(),
{
    if values.len() == 0 {
        Seq::empty()
    } else {
        values_text_of(values.drop_last()) + value_text_of(values.last())
    }
}

/// The texts of several values, one behind the other: what a drawing shows
/// for the inputs of a component.
pub fn values_text(values: &Vec<SignalValue>) -> (r: String)
    ensures
        r@ == values_text_of(values@),
{
    let mut text = String::new();
    let mut k: usize = 0;
    while k < values.len()
        invariant
            k <= values@.len(),
            text@ == values_text_of(values@.take(k as int)),
        decreases values@.len() - k,
    {
        let one = value_text(values[k]);
        text.append(one.as_str());
        assert(values@.take(k + 1).drop_last() =~= values@.take(k as int));
        k += 1;
    }
    assert(values@.take(k as int) =~= values@);
    text
}

} // verus!

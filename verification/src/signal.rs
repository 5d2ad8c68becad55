//! The value carried by a wire.

use vstd::prelude::*;

verus! {

/// The word on a wire, read as an unsigned number.
pub type SignalUnsigned = u32;

/// The word on a wire, read as a two's-complement number.
pub type SignalSigned = i32;

/// What an output holds: nothing yet, or one 32-bit word.
#[derive(Clone, Copy, Debug, PartialEq, Eq, Structural)]
pub enum SignalValue {
    /// No component has driven the output.
    Unknown,
    /// The output holds this bit pattern.
    Data(SignalUnsigned),
}

/// The failure to read a number from an output that nothing has driven.
#[derive(Clone, Copy, Debug, PartialEq, Eq, Structural)]
pub struct ConversionError {}

/// The two's-complement reading of a 32-bit pattern.
pub open spec fn signed_of(word: SignalUnsigned) -> int {
    if word < 0x8000_0000 {
        word as int
    } else {
        word - 0x1_0000_0000
    }
}

/// The 32-bit pattern that represents a signed number.
pub open spec fn pattern_of(value: SignalSigned) -> int {
    if value >= 0 {
        value as int
    } else {
        value + 0x1_0000_0000
    }
}

impl SignalValue {
    /// The word as an unsigned number, if there is one.
    pub fn unsigned(self) -> (r: Result<SignalUnsigned, ConversionError>)
        ensures
            r == match self {
                SignalValue::Data(word) => Ok::<SignalUnsigned, ConversionError>(word),
                SignalValue::Unknown => Err(ConversionError {}),
            },
    {
        match self {
            SignalValue::Data(word) => Ok(word),
            SignalValue::Unknown => Err(ConversionError {}),
        }
    }

    /// The word as a two's-complement number, if there is one.
    pub fn signed(self) -> (r: Result<SignalSigned, ConversionError>)
        ensures
            match self {
                SignalValue::Data(word) => r matches Ok(v) && v == signed_of(word),
                SignalValue::Unknown => r == Err::<SignalSigned, ConversionError>(
                    ConversionError {},
                ),
            },
    {
        match self {
            SignalValue::Data(word) => {
                if word < 0x8000_0000 {
                    Ok(word as i32)
                } else {
                    let low: u32 = word - 0x8000_0000;
                    Ok((low as i32) - 0x4000_0000 - 0x4000_0000)
                }
            },
            SignalValue::Unknown => Err(ConversionError {}),
        }
    }

    /// The value that holds an unsigned number.
    pub fn from_unsigned(word: SignalUnsigned) -> (r: SignalValue)
        ensures
            r == SignalValue::Data(word),
    {
        SignalValue::Data(word)
    }

    /// The value that holds a signed number, as its two's-complement pattern.
    pub fn from_signed(value: SignalSigned) -> (r: SignalValue)
        ensures
            r matches SignalValue::Data(word) && word == pattern_of(value),
    {
        if value >= 0 {
            SignalValue::Data(value as u32)
        } else {
            let up: i32 = value + 0x4000_0000 + 0x4000_0000;
            SignalValue::Data((up as u32) + 0x8000_0000)
        }
    }

    /// The value that holds a truth value: 1 for true, 0 for false.
    pub fn from_bool(bit: bool) -> (r: SignalValue)
        ensures
            r == SignalValue::Data(if bit { 1u32 } else { 0u32 }),
    {
        if bit {
            SignalValue::Data(1)
        } else {
            SignalValue::Data(0)
        }
    }
}

impl From<SignalUnsigned> for SignalValue {
    fn from(word: SignalUnsigned) -> (r: SignalValue) {
        SignalValue::from_unsigned(word)
    }
}

impl vstd::std_specs::convert::FromSpecImpl<SignalUnsigned> for SignalValue {
    open spec fn obeys_from_spec() -> bool {
        true
    }

    open spec fn from_spec(word: SignalUnsigned) -> SignalValue {
        SignalValue::Data(word)
    }
}

impl From<SignalSigned> for SignalValue {
    fn from(value: SignalSigned) -> (r: SignalValue) {
        SignalValue::from_signed(value)
    }
}

impl vstd::std_specs::convert::FromSpecImpl<SignalSigned> for SignalValue {
    open spec fn obeys_from_spec() -> bool {
        true
    }

    open spec fn from_spec(value: SignalSigned) -> SignalValue {
        SignalValue::Data(pattern_of(value) as u32)
    }
}

impl From<bool> for SignalValue {
    fn from(bit: bool) -> (r: SignalValue) {
        SignalValue::from_bool(bit)
    }
}

impl vstd::std_specs::convert::FromSpecImpl<bool> for SignalValue {
    open spec fn obeys_from_spec() -> bool {
        true
    }

    open spec fn from_spec(bit: bool) -> SignalValue {
        SignalValue::Data(if bit { 1u32 } else { 0u32 })
    }
}

impl TryFrom<SignalValue> for SignalUnsigned {
    type Error = ConversionError;

    fn try_from(value: SignalValue) -> (r: Result<SignalUnsigned, ConversionError>) {
        value.unsigned()
    }
}

impl vstd::std_specs::convert::TryFromSpecImpl<SignalValue> for SignalUnsigned {
    open spec fn obeys_try_from_spec() -> bool {
        true
    }

    open spec fn try_from_spec(value: SignalValue) -> Result<SignalUnsigned, ConversionError> {
        match value {
            SignalValue::Data(word) => Ok(word),
            SignalValue::Unknown => Err(ConversionError {}),
        }
    }
}

impl TryFrom<SignalValue> for SignalSigned {
    type Error = ConversionError;

    fn try_from(value: SignalValue) -> (r: Result<SignalSigned, ConversionError>) {
        value.signed()
    }
}

impl vstd::std_specs::convert::TryFromSpecImpl<SignalValue> for SignalSigned {
    open spec fn obeys_try_from_spec() -> bool {
        true
    }

    open spec fn try_from_spec(value: SignalValue) -> Result<SignalSigned, ConversionError> {
        match value {
            SignalValue::Data(word) => Ok(signed_of(word) as i32),
            SignalValue::Unknown => Err(ConversionError {}),
        }
    }
}

/// Reading a signed number and writing it back gives the same pattern, and
/// the other way round.
pub proof fn lemma_signed_round_trip(word: SignalUnsigned, value: SignalSigned)
    ensures
        i32::MIN <= signed_of(word) <= i32::MAX,
        0 <= pattern_of(value) <= u32::MAX,
        pattern_of(signed_of(word) as i32) == word,
        signed_of(pattern_of(value) as u32) == value,
{
}

} // verus!

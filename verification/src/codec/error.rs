//! What can go wrong while encoding and decoding.
use vstd::prelude::*;

verus! {

/// Why a value has no encoding.
#[derive(Clone, Copy, Debug, PartialEq, Eq, Structural)]
pub enum EncodeError {
    /// A length inside the value cannot be written: it does not fit the
    /// four bytes of its prefix, or it is the length of an array of no
    /// bytes, whose nested form would be nothing at all.
    InvalidLength,
}

/// Why bytes are not the encoding of a value of the expected type.
#[derive(Clone, Copy, Debug, PartialEq, Eq, Structural)]
pub enum DecodeError {
    /// The input ends before the value does.
    InputTooShort,
    /// The value ends before the input does, where it was to fill it.
    InputTooLong,
    /// A byte holds what the type does not allow there.
    InvalidValue,
}

impl EncodeError {
    pub fn message(&self) -> (text: &'static str)
        ensures
            text@ == "invalid length"@,
    {
        "invalid length"
    }
}

impl DecodeError {
    /// The text that names the error.
    pub open spec fn text(self) -> Seq<char> {
        match self {
            DecodeError::InputTooShort => "input too short"@,
            DecodeError::InputTooLong => "input too long"@,
            DecodeError::InvalidValue => "invalid value"@,
        }
    }

    pub fn message(&self) -> (text: &'static str)
        ensures
            text@ == self.text(),
    {
        match self {
            DecodeError::InputTooShort => "input too short",
            DecodeError::InputTooLong => "input too long",
            DecodeError::InvalidValue => "invalid value",
        }
    }
}

} // verus!

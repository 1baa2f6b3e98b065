//! The ways in which decoding a record can fail.

use vstd::prelude::*;

verus! {

/// Why a record could not be decoded. Every one of these is fatal to the
/// record: a field that cannot be placed shifts every field after it.
#[derive(Clone, Copy, Debug, PartialEq, Eq, Structural)]
pub enum DecodeError {
    /// The payload ends before the bytes that a field or the event id needs.
    Truncated,
    /// The catalog defines no event under the id that the record carries.
    UnknownEvent,
    /// A variable-length field refers to a parameter that was not decoded
    /// earlier in the same record.
    UnresolvedLength,
    /// A text that has to be read as a number does not write an integer.
    InvalidInteger,
    /// A field's length, declared or resolved, is negative.
    NegativeLength,
    /// The span handed to the integer or enumeration decoder does not have
    /// the width that the decoder expects.
    SpanLength,
    /// The bytes of a string field are not well-formed UTF-8.
    InvalidUtf8,
    /// The timestamp components add up to more than 64 bits hold.
    TimestampOverflow,
}

impl DecodeError {
    /// A one-line description for reports.
    pub fn message(&self) -> (r: &'static str)
        ensures
            r@ == match *self {
                DecodeError::Truncated => "record payload ends inside a field"@,
                DecodeError::UnknownEvent => "event id is not in the catalog"@,
                DecodeError::UnresolvedLength => "length reference names no decoded parameter"@,
                DecodeError::InvalidInteger => "value is not an integer"@,
                DecodeError::NegativeLength => "field length is negative"@,
                DecodeError::SpanLength => "span width does not match the decoder"@,
                DecodeError::InvalidUtf8 => "string field is not valid UTF-8"@,
                DecodeError::TimestampOverflow => "timestamp does not fit in 64 bits"@,
            },
    {
        match self {
            DecodeError::Truncated => "record payload ends inside a field",
            DecodeError::UnknownEvent => "event id is not in the catalog",
            DecodeError::UnresolvedLength => "length reference names no decoded parameter",
            DecodeError::InvalidInteger => "value is not an integer",
            DecodeError::NegativeLength => "field length is negative",
            DecodeError::SpanLength => "span width does not match the decoder",
            DecodeError::InvalidUtf8 => "string field is not valid UTF-8",
            DecodeError::TimestampOverflow => "timestamp does not fit in 64 bits",
        }
    }
}

} // verus!

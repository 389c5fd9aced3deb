use vstd::prelude::*;

verus! {

/// Why a byte sequence was refused by a decoder.
#[derive(Clone, Copy, Debug, PartialEq, Eq)]
pub enum DecodeError {
    /// A number does not fit the integer type that was asked for.
    Overflow,
    /// A number or a length starts with a zero byte.
    LeadingZero,
    /// The input ends before the value does.
    InputTooShort,
    /// A single byte below `0x80` was wrapped in a one-byte string.
    NonCanonicalSingleByte,
    /// A length below 56 was written in the long form.
    NonCanonicalSize,
    /// A fixed-width value has another width.
    UnexpectedLength,
    /// A byte string stands where a list was required.
    UnexpectedString,
    /// A list stands where a byte string was required.
    UnexpectedList,
    /// The fields of a list do not fill its declared payload.
    ListLengthMismatch { expected: usize, got: usize },
    /// Any other refusal, with its reason.
    Custom(&'static str),
}

} // verus!

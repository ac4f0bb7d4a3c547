//! What a decode attempt can report instead of a frame.

use vstd::prelude::*;

verus! {

/// Why a run of bytes is not a decimal integer of the wanted type.
#[derive(Debug, PartialEq, Eq, Clone, Copy, Structural)]
pub enum IntErrorKind {
    /// There is no byte at all.
    Empty,
    /// A byte is not a decimal digit, or a sign stands alone or where none may stand.
    InvalidDigit,
    /// The digits are a number above the type's largest.
    PosOverflow,
    /// The digits are a number below the type's smallest.
    NegOverflow,
}

/// Why a run of bytes is not a floating-point literal.
#[derive(Debug, PartialEq, Eq, Clone, Copy, Structural)]
pub enum FloatErrorKind {
    /// There is no byte at all.
    Empty,
    /// The bytes do not follow the grammar of a floating-point literal.
    Invalid,
}

/// The outcomes of decoding other than a frame.
///
/// `NotComplete` is the only one that more input can cure. After any other the
/// byte stream has lost its frame boundaries.
#[derive(Debug, PartialEq, Eq)]
pub enum RespDecodeError {
    /// The bytes cannot start a frame of the wanted type. The text names what was
    /// wanted and shows the offending bytes.
    InvalidFrameType(String),
    /// The bytes are a proper beginning of a frame, and the rest has not arrived.
    NotComplete,
    /// A length, a count or an integer body is not a decimal number.
    ParseIntError(IntErrorKind),
    /// The body of a double is not a floating-point literal.
    ParseFloatError(FloatErrorKind),
}

/// The mathematical content of a [`RespDecodeError`]: the same cases, with the
/// diagnostic text as a sequence of characters.
pub enum Flaw {
    InvalidFrameType(Seq<char>),
    NotComplete,
    ParseIntError(IntErrorKind),
    ParseFloatError(FloatErrorKind),
}

impl View for RespDecodeError {
    type V = Flaw;

    open spec fn view(&self) -> Flaw {
        match self {
            RespDecodeError::InvalidFrameType(text) => Flaw::InvalidFrameType(text@),
            RespDecodeError::NotComplete => Flaw::NotComplete,
            RespDecodeError::ParseIntError(kind) => Flaw::ParseIntError(*kind),
            RespDecodeError::ParseFloatError(kind) => Flaw::ParseFloatError(*kind),
        }
    }
}

} // verus!

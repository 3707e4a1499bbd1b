//! The ways in which a line can fail to decode.
use vstd::prelude::*;

verus! {

/// Why a line was not decoded. Each failure belongs to one line alone.
#[derive(Debug, Clone, Copy, PartialEq, Eq, Structural)]
pub enum IOError {
    /// A byte of the size prefix lies outside 63..=126, or the prefix ends early.
    InvalidSizeByte,
    /// A byte that packs six bits lies outside 63..=126.
    InvalidBitByte,
    /// The line holds fewer bits than the matrix of its order needs.
    InsufficientBits,
    /// The length of a flat line is not a square number.
    NotASquare,
    /// A flat line holds a character other than `0` and `1`.
    InvalidCharacter,
    /// The line does not begin as the requested format demands.
    FormatMismatch,
    /// The requested format belongs to the sparse6 family.
    Unsupported,
}

} // verus!

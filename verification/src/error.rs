//! The closed set of failures that parsing, validation and lookup can report.

use vstd::prelude::*;

verus! {

/// Everything that can go wrong while reading, building or mutating a
/// container.  `CrcMismatch` carries the recomputed checksum (`expected`)
/// and the one read from the buffer (`actual`) for diagnostics.
#[derive(Debug, Clone, Copy, PartialEq, Eq, Structural)]
pub enum FormatError {
    /// A 4-byte type tag held a byte that is not an ASCII letter or digit.
    InvalidTag,
    /// A type-tag string was not exactly 4 bytes long.
    WrongLength,
    /// A type-tag string held a character that is not an ASCII letter.
    NotAlphabetic,
    /// The buffer does not begin with the 8 magic signature bytes.
    BadSignature,
    /// The buffer ended before the declared chunk length and checksum.
    Truncated,
    /// The checksum read from the buffer disagrees with the one recomputed
    /// over the type tag and payload.
    CrcMismatch { expected: u32, actual: u32 },
    /// A payload was read as text but is not valid UTF-8.
    InvalidText,
    /// No chunk with the requested type tag exists in the container.
    ChunkNotFound,
}

} // verus!

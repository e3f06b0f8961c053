//! The failure kinds of parsing, construction and lookup.

use vstd::prelude::*;

verus! {

/// Every way a chunk type, a chunk or a container operation can fail.
#[derive(Debug, Clone, Copy, PartialEq, Eq, Structural)]
pub enum PngError {
    /// A chunk type byte is not an ASCII letter.
    InvalidChunkType,
    /// A chunk type string does not have exactly four characters.
    ExpectedFourBytes,
    /// A declared payload length exceeds the 31-bit maximum.
    LengthTooLong,
    /// The buffer ends before the declared structure does.
    UnexpectedEof,
    /// The stored checksum disagrees with the one recomputed over type and payload.
    ChecksumMismatch { expected: u32, found: u32 },
    /// The leading eight bytes are not the fixed container signature.
    SignatureMismatch,
    /// A lookup or removal addressed a chunk type with no matching entry.
    ChunkNotFound,
    /// A payload is not valid UTF-8 text.
    InvalidUtf8,
}

} // verus!

use vstd::prelude::*;

verus! {

/// Why an operation on a chunk, a chunk type or a whole file failed.
#[derive(Debug, Clone, Copy, PartialEq, Eq, Structural)]
pub enum PngError {
    /// The file does not start with the PNG signature.
    BadSignature,
    /// A record is cut short, or its length field disagrees with its bytes.
    Truncated,
    /// The stored checksum differs from the one computed over type and data.
    ChecksumMismatch,
    /// A chunk type label is not exactly four characters long.
    InvalidLength,
    /// A chunk type label holds a character outside `A-Z` and `a-z`.
    InvalidByte,
    /// Bytes that should be text are not valid (for a type code: ASCII, for data: UTF-8).
    EncodingError,
    /// No chunk of the requested type is present.
    ChunkNotFound,
}

} // verus!

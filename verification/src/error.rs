//! The error kinds that parsing, decoding and removal operations report.

use vstd::prelude::*;

verus! {

/// One error kind per way an operation on the chunk container can fail.
#[derive(Debug, Clone, Copy, PartialEq, Eq, Structural)]
pub enum PngError {
    /// A chunk-type string does not consist of exactly 4 bytes.
    InvalidFormat,
    /// A chunk payload is not valid UTF-8 although text decoding was requested.
    Utf8Error,
    /// A chunk header declares more bytes than the input holds.
    UnexpectedEof,
    /// The checksum read from the input differs from the one recomputed over
    /// the chunk's type and data: the record is corrupt.
    CrcMismatch,
    /// The input does not begin with the 8-byte PNG signature.
    InvalidSignature,
    /// No chunk with the requested type exists in the container.
    ChunkNotFound,
}

} // verus!

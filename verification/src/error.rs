//! The failure cases of the library, one variant for each distinct way an
//! operation can be refused: structural faults of a byte stream, rejected
//! chunk-type text, a lookup that found nothing, and a payload that is not
//! UTF-8.

use vstd::prelude::*;

verus! {

#[derive(Debug, Clone, Copy, PartialEq, Eq, Structural)]
pub enum PngError {
    /// The first eight bytes of a container are not the PNG signature.
    BadSignature,
    /// A buffer ended before a whole chunk record could be read.
    Truncated,
    /// A chunk's declared length does not match the payload bytes present.
    LengthMismatch,
    /// A chunk's stored CRC does not match the CRC of its type and payload.
    ChecksumMismatch,
    /// A chunk-type string is not exactly four bytes long.
    InvalidLength,
    /// A chunk-type string holds a byte that is not an ASCII letter.
    NonAlphaByte,
    /// No chunk of the requested type is present.
    NotFound,
    /// A payload was asked for as text but is not valid UTF-8.
    InvalidUtf8,
}

} // verus!

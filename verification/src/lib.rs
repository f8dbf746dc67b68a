//! Reading, validating, mutating and re-serializing PNG container files at
//! the chunk level: the 4-byte chunk type code with its flag bits, the
//! length- and CRC-protected chunk record, and the signature-framed ordered
//! chunk sequence, each with a proved wire-format round trip.

pub mod be_bytes;
pub mod chunk;
pub mod chunk_type;
pub mod error;
pub mod png;

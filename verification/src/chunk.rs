//! The length-prefixed, CRC-protected chunk record: a `ChunkType` and a byte
//! payload, laid out on the wire as `length(4 BE) | type(4) | data | crc(4 BE)`.

use vstd::prelude::*;

use crate::be_bytes::{
    lemma_u32_be_bytes_inverse, put_u32_be, spec_u32_from_be_bytes, spec_u32_to_be_bytes,
    u32_from_be,
};
use crate::chunk_type::ChunkType;
use crate::error::PngError;
use vstd::slice::slice_to_vec;
use vstd::utf8::{encode_utf8, valid_utf8};

verus! {

/// The CRC-32 (IEEE polynomial, as used by PNG and zlib) of a byte sequence.
pub uninterp spec fn crc32_of(bytes: Seq<u8>) -> u32;

/// Relies on `crc32fast::hash`: the IEEE CRC-32 of the bytes, a function of
/// the bytes alone.
#[verifier::external_body]
fn crc32(bytes: &Vec<u8>) -> (r: u32)
    ensures
        r == crc32_of(bytes@),
{
    crc32fast::hash(bytes.as_slice())
}

/// The mathematical image of a chunk: its four fields as plain values.
pub ghost struct ChunkModel {
    pub length: u32,
    pub type_bytes: Seq<u8>,
    pub data: Seq<u8>,
    pub crc: u32,
}

impl ChunkModel {
    /// Well-formedness: four type bytes, the length field counting exactly
    /// the payload, and the CRC covering type and payload.
    pub open spec fn wf(self) -> bool {
        &&& self.type_bytes.len() == 4
        &&& self.length == self.data.len()
        &&& self.crc == crc32_of(self.type_bytes + self.data)
    }

    /// The wire form: big-endian length, type, payload, big-endian CRC.
    pub open spec fn serialized(self) -> Seq<u8> {
        spec_u32_to_be_bytes(self.length) + self.type_bytes + self.data + spec_u32_to_be_bytes(
            self.crc,
        )
    }
}

/// The four fields denoted by a chunk buffer, before any validation.
pub open spec fn spec_chunk_fields(bytes: Seq<u8>) -> ChunkModel
    recommends
        bytes.len() >= 12,
{
    ChunkModel {
        length: spec_u32_from_be_bytes(bytes.subrange(0, 4)),
        type_bytes: bytes.subrange(4, 8),
        data: bytes.subrange(8, bytes.len() - 4),
        crc: spec_u32_from_be_bytes(bytes.subrange(bytes.len() - 4, bytes.len() as int)),
    }
}

/// Holds exactly when a buffer parses as a chunk: it is long enough, its
/// declared length matches the payload present, and its stored CRC matches
/// the CRC of its type and payload.
pub open spec fn spec_chunk_parse_ok(bytes: Seq<u8>) -> bool {
    &&& bytes.len() >= 12
    &&& spec_chunk_fields(bytes).length == bytes.len() - 12
    &&& spec_chunk_fields(bytes).crc == crc32_of(bytes.subrange(4, bytes.len() - 4))
}

/// The error with which a buffer that does not parse as a chunk is refused.
pub open spec fn spec_chunk_parse_err(bytes: Seq<u8>) -> PngError {
    if bytes.len() < 12 {
        PngError::Truncated
    } else if spec_chunk_fields(bytes).length != bytes.len() - 12 {
        PngError::LengthMismatch
    } else {
        PngError::ChecksumMismatch
    }
}

/// A chunk record: a type code, a payload, and the length and CRC fields
/// that frame and protect them on the wire.
#[derive(Debug, Clone)]
pub struct Chunk {
    pub length: u32,
    pub chunk_type: ChunkType,
    pub data: Vec<u8>,
    pub crc: u32,
}

impl View for Chunk {
    type V = ChunkModel;

    open spec fn view(&self) -> ChunkModel {
        ChunkModel {
            length: self.length,
            type_bytes: self.chunk_type.datatype@,
            data: self.data@,
            crc: self.crc,
        }
    }
}

impl Chunk {
    /// Builds a fresh chunk from a type and a payload, computing the length
    /// and CRC fields; the payload must fit the 32-bit length field.
    pub fn new(chunk_type: ChunkType, data: Vec<u8>) -> (r: Chunk)
        requires
            data@.len() <= u32::MAX,
        ensures
            r@ == (ChunkModel {
                length: data@.len() as u32,
                type_bytes: chunk_type.datatype@,
                data: data@,
                crc: crc32_of(chunk_type.datatype@ + data@),
            }),
            r@.wf(),
    {
        let length = data.len() as u32;
        let tb = chunk_type.bytes();
        let mut buf: Vec<u8> = Vec::new();
        buf.push(tb[0]);
        buf.push(tb[1]);
        buf.push(tb[2]);
        buf.push(tb[3]);
        buf.extend_from_slice(data.as_slice());
        proof {
            assert(buf@ =~= chunk_type.datatype@ + data@);
        }
        let crc = crc32(&buf);
        Chunk { length, chunk_type, data, crc }
    }

    /// Parses one chunk from a buffer that must hold exactly the record:
    /// refuses a buffer too short for the fixed fields, a declared length
    /// that does not match the payload present, and a stored CRC that does
    /// not match the recomputed one. The type bytes are taken verbatim.
    pub fn parse(bytes: &[u8]) -> (r: Result<Chunk, PngError>)
        ensures
            r is Ok <==> spec_chunk_parse_ok(bytes@),
            r matches Ok(c) ==> c@ == spec_chunk_fields(bytes@) && c@.wf(),
            r matches Err(e) ==> e == spec_chunk_parse_err(bytes@),
    {
        let n = bytes.len();
        if n < 12 {
            return Err(PngError::Truncated);
        }
        let declared = u32_from_be(bytes[0], bytes[1], bytes[2], bytes[3]);
        proof {
            assert(seq![bytes@[0], bytes@[1], bytes@[2], bytes@[3]] =~= bytes@.subrange(0, 4));
        }
        if declared as usize != n - 12 {
            return Err(PngError::LengthMismatch);
        }
        let chunk_type = ChunkType::from_bytes([bytes[4], bytes[5], bytes[6], bytes[7]]);
        proof {
            assert(chunk_type.datatype@ =~= bytes@.subrange(4, 8));
        }
        let data: Vec<u8> = slice_to_vec(&bytes[8..n - 4]);
        let stored = u32_from_be(bytes[n - 4], bytes[n - 3], bytes[n - 2], bytes[n - 1]);
        proof {
            assert(seq![bytes@[n - 4], bytes@[n - 3], bytes@[n - 2], bytes@[n - 1]]
                =~= bytes@.subrange(n - 4, n as int));
        }
        let mut buf: Vec<u8> = Vec::new();
        buf.push(bytes[4]);
        buf.push(bytes[5]);
        buf.push(bytes[6]);
        buf.push(bytes[7]);
        buf.extend_from_slice(data.as_slice());
        proof {
            assert(buf@ =~= bytes@.subrange(4, n - 4));
        }
        let computed = crc32(&buf);
        if stored != computed {
            return Err(PngError::ChecksumMismatch);
        }
        let c = Chunk { length: declared, chunk_type, data, crc: stored };
        proof {
            assert(c@.type_bytes + c@.data =~= bytes@.subrange(4, n - 4));
        }
        Ok(c)
    }

    /// The value of the length field: the byte count of the payload alone.
    pub fn length(&self) -> (r: u32)
        ensures
            r == self@.length,
    {
        self.length
    }

    /// The chunk's type code.
    pub fn chunk_type(&self) -> (r: &ChunkType)
        ensures
            *r == self.chunk_type,
            r.datatype@ == self@.type_bytes,
    {
        &self.chunk_type
    }

    /// The payload bytes.
    pub fn data(&self) -> (r: &Vec<u8>)
        ensures
            r@ == self@.data,
    {
        &self.data
    }

    /// The value of the CRC field.
    pub fn crc(&self) -> (r: u32)
        ensures
            r == self@.crc,
    {
        self.crc
    }

    /// The payload read as UTF-8 text; refused when it is not valid UTF-8.
    pub fn data_as_string(&self) -> (r: Result<String, PngError>)
        ensures
            r is Ok <==> valid_utf8(self@.data),
            r matches Ok(s) ==> encode_utf8(s@) == self@.data,
            r matches Err(e) ==> e == PngError::InvalidUtf8,
    {
        let copy: Vec<u8> = slice_to_vec(self.data.as_slice());
        match vec_to_string(copy) {
            Some(s) => Ok(s),
            None => Err(PngError::InvalidUtf8),
        }
    }

    /// The wire form of the chunk: big-endian length, type bytes, payload,
    /// big-endian CRC, `length + 12` bytes in all.
    pub fn as_bytes(&self) -> (r: Vec<u8>)
        ensures
            r@ == self@.serialized(),
    {
        let mut out: Vec<u8> = Vec::new();
        put_u32_be(&mut out, self.length);
        let tb = self.chunk_type.bytes();
        out.push(tb[0]);
        out.push(tb[1]);
        out.push(tb[2]);
        out.push(tb[3]);
        out.extend_from_slice(self.data.as_slice());
        put_u32_be(&mut out, self.crc);
        proof {
            assert(out@ =~= self@.serialized());
        }
        out
    }
}

/// Relies on `String::from_utf8`: succeeds exactly when the bytes are valid
/// UTF-8, and then the returned string's UTF-8 encoding is those bytes.
#[verifier::external_body]
fn vec_to_string(bytes: Vec<u8>) -> (r: Option<String>)
    ensures
        r is Some <==> valid_utf8(bytes@),
        r matches Some(s) ==> encode_utf8(s@) == bytes@,
{
    String::from_utf8(bytes).ok()
}

/// Tamper detection, up to CRC collision: altering the type or payload
/// region of a buffer that parses as a chunk, while leaving the length and
/// CRC fields as they were, is refused with a checksum mismatch whenever
/// the altered region's CRC differs from the original region's.
pub proof fn lemma_chunk_tamper_detected(b1: Seq<u8>, b2: Seq<u8>)
    requires
        spec_chunk_parse_ok(b1),
        b2.len() == b1.len(),
        b2.subrange(0, 4) == b1.subrange(0, 4),
        b2.subrange(b2.len() - 4, b2.len() as int) == b1.subrange(b1.len() - 4, b1.len() as int),
        crc32_of(b2.subrange(4, b2.len() - 4)) != crc32_of(b1.subrange(4, b1.len() - 4)),
    ensures
        !spec_chunk_parse_ok(b2),
        spec_chunk_parse_err(b2) == PngError::ChecksumMismatch,
{
    assert(spec_chunk_fields(b2).length == spec_chunk_fields(b1).length);
    assert(spec_chunk_fields(b2).crc == spec_chunk_fields(b1).crc);
}

/// Round trip: the wire form of any well-formed chunk parses back to the
/// same chunk, field for field.
pub proof fn lemma_chunk_round_trip(c: ChunkModel)
    requires
        c.wf(),
    ensures
        spec_chunk_parse_ok(c.serialized()),
        spec_chunk_fields(c.serialized()) == c,
{
    let b = c.serialized();
    lemma_u32_be_bytes_inverse(c.length);
    lemma_u32_be_bytes_inverse(c.crc);
    assert(b.len() == 12 + c.data.len());
    assert(b.subrange(0, 4) =~= spec_u32_to_be_bytes(c.length));
    assert(b.subrange(4, 8) =~= c.type_bytes);
    assert(b.subrange(8, b.len() - 4) =~= c.data);
    assert(b.subrange(b.len() - 4, b.len() as int) =~= spec_u32_to_be_bytes(c.crc));
    assert(b.subrange(4, b.len() - 4) =~= c.type_bytes + c.data);
    assert(spec_chunk_fields(b) == c);
}

} // verus!

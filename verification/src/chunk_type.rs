//! The 4-byte chunk type code of the PNG chunk format, with the four
//! boolean properties that bit 5 of each byte encodes.

use vstd::prelude::*;

use crate::error::PngError;
use vstd::string::StringSliceAdditionalSpecFns;

verus! {

/// Holds `true` exactly when `b` is an ASCII letter (`A`-`Z` or `a`-`z`).
pub open spec fn spec_is_valid_byte(b: u8) -> bool {
    (65 <= b && b <= 90) || (97 <= b && b <= 122)
}

/// Returns whether `byte` is an ASCII letter, the only bytes allowed in a
/// chunk type built from text.
pub fn is_valid_byte(byte: u8) -> (r: bool)
    ensures
        r == spec_is_valid_byte(byte),
{
    (byte >= 65 && byte <= 90) || (byte >= 97 && byte <= 122)
}

/// The character under which a byte is displayed: itself for an ASCII
/// letter, a placeholder underscore for anything else.
pub open spec fn spec_display_char(b: u8) -> char {
    if spec_is_valid_byte(b) {
        b as char
    } else {
        '_'
    }
}

/// The display form of a byte sequence, character by character.
pub open spec fn spec_display_chars(bytes: Seq<u8>) -> Seq<char> {
    Seq::new(bytes.len(), |i: int| spec_display_char(bytes[i]))
}

/// A 4-byte chunk type code. Bytes read off the wire are stored verbatim;
/// only construction from text insists on ASCII letters.
#[derive(Debug, Clone, Copy)]
pub struct ChunkType {
    pub datatype: [u8; 4],
}

impl PartialEq for ChunkType {
    /// Two type codes are equal exactly when their four bytes are equal.
    fn eq(&self, other: &ChunkType) -> (r: bool) {
        let r = self.datatype[0] == other.datatype[0] && self.datatype[1] == other.datatype[1]
            && self.datatype[2] == other.datatype[2] && self.datatype[3] == other.datatype[3];
        proof {
            if r {
                assert(self.datatype@ =~= other.datatype@);
            }
        }
        r
    }
}

impl vstd::std_specs::cmp::PartialEqSpecImpl for ChunkType {
    open spec fn obeys_eq_spec() -> bool {
        true
    }

    open spec fn eq_spec(&self, other: &ChunkType) -> bool {
        self.datatype@ == other.datatype@
    }
}

impl ChunkType {
    /// Wraps four raw bytes as a chunk type, with no validation: malformed
    /// but parseable streams may carry non-letter type bytes.
    pub fn from_bytes(datatype: [u8; 4]) -> (r: ChunkType)
        ensures
            r.datatype@ == datatype@,
    {
        ChunkType { datatype }
    }

    /// Builds a chunk type from a byte buffer, which must hold exactly four
    /// bytes; no further validation is performed.
    pub fn try_from_slice(bytes: &[u8]) -> (r: Result<ChunkType, PngError>)
        ensures
            r is Ok <==> bytes@.len() == 4,
            r matches Ok(ct) ==> ct.datatype@ == bytes@,
            r matches Err(e) ==> e == PngError::InvalidLength,
    {
        if bytes.len() != 4 {
            return Err(PngError::InvalidLength);
        }
        let r = ChunkType { datatype: [bytes[0], bytes[1], bytes[2], bytes[3]] };
        proof {
            assert(r.datatype@ =~= bytes@);
        }
        Ok(r)
    }

    /// Builds a chunk type from text: the string must be exactly four bytes,
    /// each an ASCII letter.
    pub fn from_str(s: &str) -> (r: Result<ChunkType, PngError>)
        ensures
            r is Ok <==> (s.spec_bytes().len() == 4 && (forall|i: int|
                0 <= i < 4 ==> spec_is_valid_byte(s.spec_bytes()[i]))),
            r matches Ok(ct) ==> ct.datatype@ == s.spec_bytes(),
            r matches Err(e) ==> e == (if s.spec_bytes().len() != 4 {
                PngError::InvalidLength
            } else {
                PngError::NonAlphaByte
            }),
    {
        let bytes = s.as_bytes();
        if bytes.len() != 4 {
            return Err(PngError::InvalidLength);
        }
        let r = ChunkType { datatype: [bytes[0], bytes[1], bytes[2], bytes[3]] };
        if !r.is_alpha() {
            return Err(PngError::NonAlphaByte);
        }
        proof {
            assert(r.datatype@ =~= s.spec_bytes());
        }
        Ok(r)
    }

    /// The display form of the type code: each ASCII letter as itself, any
    /// other byte as an underscore.
    pub fn chunk_type(&self) -> (r: String)
        ensures
            r@ == spec_display_chars(self.datatype@),
    {
        let mut s = String::new();
        let mut i: usize = 0;
        while i < 4
            invariant
                i <= 4,
                s@ =~= spec_display_chars(self.datatype@).take(i as int),
            decreases 4 - i,
        {
            let b = self.datatype[i];
            let c: char = if is_valid_byte(b) {
                b as char
            } else {
                '_'
            };
            push_char(&mut s, c);
            i = i + 1;
        }
        proof {
            assert(s@ =~= spec_display_chars(self.datatype@));
        }
        s
    }

    /// The four raw bytes of the type code.
    pub fn bytes(&self) -> (r: [u8; 4])
        ensures
            r@ == self.datatype@,
    {
        self.datatype
    }

    /// Holds exactly when bit 5 of the first byte is clear.
    pub open spec fn spec_is_critical(self) -> bool {
        self.datatype@[0] & 0x20 == 0
    }

    /// A chunk is critical when bit 5 of byte 0 is clear; ancillary otherwise.
    pub fn is_critical(&self) -> (r: bool)
        ensures
            r == self.spec_is_critical(),
    {
        (self.datatype[0] & 0x20) == 0
    }

    /// Holds exactly when bit 5 of the second byte is clear.
    pub open spec fn spec_is_public(self) -> bool {
        self.datatype@[1] & 0x20 == 0
    }

    /// A chunk is public when bit 5 of byte 1 is clear; private otherwise.
    pub fn is_public(&self) -> (r: bool)
        ensures
            r == self.spec_is_public(),
    {
        (self.datatype[1] & 0x20) == 0
    }

    /// Holds exactly when bit 5 of the third byte is clear.
    pub open spec fn spec_is_reserved_bit_valid(self) -> bool {
        self.datatype@[2] & 0x20 == 0
    }

    /// The reserved bit (bit 5 of byte 2) must currently be clear.
    pub fn is_reserved_bit_valid(&self) -> (r: bool)
        ensures
            r == self.spec_is_reserved_bit_valid(),
    {
        (self.datatype[2] & 0x20) == 0
    }

    /// Holds exactly when bit 5 of the fourth byte is set.
    pub open spec fn spec_is_safe_to_copy(self) -> bool {
        self.datatype@[3] & 0x20 == 0x20
    }

    /// A chunk is safe to copy when bit 5 of byte 3 is set — the sense is
    /// inverted relative to the other three properties.
    pub fn is_safe_to_copy(&self) -> (r: bool)
        ensures
            r == self.spec_is_safe_to_copy(),
    {
        (self.datatype[3] & 0x20) == 0x20
    }

    /// Holds exactly when all four bytes are ASCII letters.
    pub open spec fn spec_is_alpha(self) -> bool {
        forall|i: int| 0 <= i < 4 ==> spec_is_valid_byte(self.datatype@[i])
    }

    /// Holds exactly when the reserved bit is valid and all four bytes are
    /// ASCII letters.
    pub open spec fn spec_is_valid(self) -> bool {
        self.spec_is_reserved_bit_valid() && self.spec_is_alpha()
    }

    /// A type code is valid when its reserved bit is clear and all four of
    /// its bytes are ASCII letters.
    pub fn is_valid(&self) -> (r: bool)
        ensures
            r == self.spec_is_valid(),
    {
        if !self.is_reserved_bit_valid() {
            return false;
        }
        self.is_alpha()
    }

    /// Returns whether all four bytes are ASCII letters.
    #[allow(non_snake_case)]
    pub fn isAlpha(&self) -> (r: bool)
        ensures
            r == self.spec_is_alpha(),
    {
        self.is_alpha()
    }

    /// Returns whether all four bytes are ASCII letters.
    fn is_alpha(&self) -> (r: bool)
        ensures
            r == self.spec_is_alpha(),
    {
        let r = is_valid_byte(self.datatype[0]) && is_valid_byte(self.datatype[1])
            && is_valid_byte(self.datatype[2]) && is_valid_byte(self.datatype[3]);
        proof {
            assert(r == self.spec_is_alpha()) by {
                if r {
                    assert forall|i: int| 0 <= i < 4 implies spec_is_valid_byte(
                        self.datatype@[i],
                    ) by {
                        assert(self.datatype@[0] == self.datatype@.index(0));
                    }
                }
            }
        }
        r
    }
}

/// Relies on `String::push`: appends exactly the given character.
#[verifier::external_body]
fn push_char(s: &mut String, c: char)
    ensures
        final(s)@ == old(s)@.push(c),
{
    s.push(c);
}

} // verus!

//! The PNG container: a fixed 8-byte signature followed by an ordered
//! sequence of chunk records, with lookup, insertion, deletion and
//! whole-file (de)serialization.

use vstd::prelude::*;

use crate::be_bytes::{spec_u32_from_be_bytes, u32_from_be};
use crate::chunk::{
    lemma_chunk_round_trip, spec_chunk_fields, spec_chunk_parse_err, spec_chunk_parse_ok, Chunk,
    ChunkModel,
};
use crate::chunk_type::ChunkType;
use crate::error::PngError;
use vstd::string::StringSliceAdditionalSpecFns;

verus! {

/// The fixed 8-byte signature that every PNG stream begins with.
pub open spec fn spec_signature() -> Seq<u8> {
    seq![0x89u8, 0x50u8, 0x4eu8, 0x47u8, 0x0du8, 0x0au8, 0x1au8, 0x0au8]
}

/// The signature as an array of bytes.
pub fn signature() -> (r: [u8; 8])
    ensures
        r@ == spec_signature(),
{
    let r: [u8; 8] = [0x89, 0x50, 0x4e, 0x47, 0x0d, 0x0a, 0x1a, 0x0a];
    proof {
        assert(r@ =~= spec_signature());
    }
    r
}

/// The type bytes of the terminal end-marker chunk, `IEND`.
pub open spec fn spec_iend_type() -> Seq<u8> {
    seq![0x49u8, 0x45u8, 0x4eu8, 0x44u8]
}

/// Parses back-to-back chunk records until the bytes are exhausted: the
/// result of decoding everything after the signature.
pub open spec fn spec_parse_chunks(bytes: Seq<u8>) -> Result<Seq<ChunkModel>, PngError>
    decreases bytes.len(),
{
    if bytes.len() == 0 {
        Ok(Seq::empty())
    } else if bytes.len() < 4 {
        Err(PngError::Truncated)
    } else {
        let size = spec_u32_from_be_bytes(bytes.subrange(0, 4)) + 12;
        if bytes.len() < size {
            Err(PngError::Truncated)
        } else {
            let head = bytes.subrange(0, size as int);
            let tail = bytes.skip(size as int);
            if !spec_chunk_parse_ok(head) {
                Err(spec_chunk_parse_err(head))
            } else {
                match spec_parse_chunks(tail) {
                    Ok(rest) => Ok(seq![spec_chunk_fields(head)] + rest),
                    Err(e) => Err(e),
                }
            }
        }
    }
}

/// The wire form of a chunk sequence: each chunk's serialization in order.
pub open spec fn spec_serialize_chunks(chunks: Seq<ChunkModel>) -> Seq<u8>
    decreases chunks.len(),
{
    if chunks.len() == 0 {
        Seq::empty()
    } else {
        chunks[0].serialized() + spec_serialize_chunks(chunks.drop_first())
    }
}

/// The position of the first chunk whose type bytes are `t`, if any.
pub open spec fn spec_find_chunk(chunks: Seq<ChunkModel>, t: Seq<u8>) -> Option<int>
    decreases chunks.len(),
{
    if chunks.len() == 0 {
        None
    } else if chunks[0].type_bytes == t {
        Some(0)
    } else {
        match spec_find_chunk(chunks.drop_first(), t) {
            Some(i) => Some(i + 1),
            None => None,
        }
    }
}

/// What `spec_find_chunk` returns: the first matching position when one
/// exists, and nothing exactly when no chunk matches.
pub proof fn lemma_find_chunk(chunks: Seq<ChunkModel>, t: Seq<u8>)
    ensures
        match spec_find_chunk(chunks, t) {
            Some(i) => 0 <= i < chunks.len() && chunks[i].type_bytes == t && (forall|j: int|
                0 <= j < i ==> chunks[j].type_bytes != t),
            None => forall|j: int| 0 <= j < chunks.len() ==> chunks[j].type_bytes != t,
        },
    decreases chunks.len(),
{
    if chunks.len() > 0 && chunks[0].type_bytes != t {
        let rest = chunks.drop_first();
        lemma_find_chunk(rest, t);
        match spec_find_chunk(rest, t) {
            Some(i) => {
                assert(chunks[i + 1] == rest[i]);
                assert forall|j: int| 0 <= j < i + 1 implies chunks[j].type_bytes != t by {
                    if j > 0 {
                        assert(chunks[j] == rest[j - 1]);
                    }
                }
            },
            None => {
                assert forall|j: int| 0 <= j < chunks.len() implies chunks[j].type_bytes != t by {
                    if j > 0 {
                        assert(chunks[j] == rest[j - 1]);
                    }
                }
            },
        }
    }
}

/// Holds when the sequence ends with the terminal end-marker chunk.
pub open spec fn spec_has_trailing_iend(chunks: Seq<ChunkModel>) -> bool {
    chunks.len() > 0 && chunks.last().type_bytes == spec_iend_type()
}

/// An in-memory PNG container: its ordered chunk sequence. The signature is
/// fixed and implicit; serialization always emits it first.
#[derive(Debug)]
pub struct Png {
    pub chunks: Vec<Chunk>,
}

impl View for Png {
    type V = Seq<ChunkModel>;

    open spec fn view(&self) -> Seq<ChunkModel> {
        self.chunks@.map_values(|c: Chunk| c@)
    }
}

/// Compares a chunk type's bytes with a byte slice.
fn type_eq_slice(ct: &ChunkType, t: &[u8]) -> (r: bool)
    ensures
        r == (ct.datatype@ == t@),
{
    if t.len() != 4 {
        proof {
            assert(ct.datatype@.len() == 4);
        }
        return false;
    }
    let r = ct.datatype[0] == t[0] && ct.datatype[1] == t[1] && ct.datatype[2] == t[2]
        && ct.datatype[3] == t[3];
    proof {
        if r {
            assert(ct.datatype@ =~= t@);
        } else {
            assert(ct.datatype@ != t@) by {
                if ct.datatype@ == t@ {
                    assert(ct.datatype@[0] == t@[0] && ct.datatype@[1] == t@[1] && ct.datatype@[2]
                        == t@[2] && ct.datatype@[3] == t@[3]);
                }
            }
        }
    }
    r
}

impl Png {
    /// Well-formedness: every chunk in the sequence is well-formed.
    pub open spec fn wf(self) -> bool {
        forall|i: int| 0 <= i < self@.len() ==> self@[i].wf()
    }

    /// Wraps an already-built chunk sequence as a container.
    pub fn from_chunks(chunks: Vec<Chunk>) -> (r: Png)
        ensures
            r@ == chunks@.map_values(|c: Chunk| c@),
    {
        Png { chunks }
    }

    /// Parses a whole byte stream: the fixed signature first, then chunk
    /// records back to back until the input is exhausted, refusing the
    /// stream on the first chunk that does not parse.
    #[verifier::loop_isolation(false)]
    pub fn parse(bytes: &[u8]) -> (r: Result<Png, PngError>)
        ensures
            r is Ok <==> (bytes@.len() >= 8 && bytes@.subrange(0, 8) == spec_signature()
                && spec_parse_chunks(bytes@.skip(8)) is Ok),
            r matches Ok(p) ==> spec_parse_chunks(bytes@.skip(8)) == Ok::<_, PngError>(p@)
                && p.wf(),
            r matches Err(e) ==> (if bytes@.len() < 8 || bytes@.subrange(0, 8)
                != spec_signature() {
                e == PngError::BadSignature
            } else {
                spec_parse_chunks(bytes@.skip(8)) == Err::<Seq<ChunkModel>, PngError>(e)
            }),
    {
        let n = bytes.len();
        if n < 8 {
            return Err(PngError::BadSignature);
        }
        let sig_ok = bytes[0] == 0x89 && bytes[1] == 0x50 && bytes[2] == 0x4e && bytes[3] == 0x47
            && bytes[4] == 0x0d && bytes[5] == 0x0a && bytes[6] == 0x1a && bytes[7] == 0x0a;
        proof {
            let s = bytes@.subrange(0, 8);
            assert(s[0] == bytes@[0] && s[1] == bytes@[1] && s[2] == bytes@[2] && s[3] == bytes@[3]
                && s[4] == bytes@[4] && s[5] == bytes@[5] && s[6] == bytes@[6] && s[7]
                == bytes@[7]);
            if sig_ok {
                assert(s =~= spec_signature());
            }
        }
        if !sig_ok {
            return Err(PngError::BadSignature);
        }
        let mut chunks: Vec<Chunk> = Vec::new();
        let mut pos: usize = 8;
        proof {
            assert(chunks@.map_values(|c: Chunk| c@) =~= Seq::<ChunkModel>::empty());
            match spec_parse_chunks(bytes@.skip(8)) {
                Ok(rest) => {
                    assert(chunks@.map_values(|c: Chunk| c@) + rest =~= rest);
                },
                Err(_) => {},
            }
        }
        while pos < n
            invariant
                8 <= pos <= n,
                n == bytes@.len(),
                forall|i: int| 0 <= i < chunks@.len() ==> (#[trigger] chunks@[i])@.wf(),
                spec_parse_chunks(bytes@.skip(8)) == (match spec_parse_chunks(
                    bytes@.skip(pos as int),
                ) {
                    Ok(rest) => Ok::<Seq<ChunkModel>, PngError>(
                        chunks@.map_values(|c: Chunk| c@) + rest,
                    ),
                    Err(e) => Err::<Seq<ChunkModel>, PngError>(e),
                }),
            decreases n - pos,
        {
            let ghost here = bytes@.skip(pos as int);
            proof {
                assert(here.len() == n - pos);
            }
            let rem = n - pos;
            if rem < 4 {
                proof {
                    assert(spec_parse_chunks(here) == Err::<Seq<ChunkModel>, PngError>(
                        PngError::Truncated,
                    ));
                }
                return Err(PngError::Truncated);
            }
            let declared = u32_from_be(bytes[pos], bytes[pos + 1], bytes[pos + 2], bytes[pos + 3]);
            proof {
                assert(seq![bytes@[pos as int], bytes@[pos + 1], bytes@[pos + 2], bytes@[pos + 3]]
                    =~= here.subrange(0, 4));
            }
            if rem < 12 || declared as usize > rem - 12 {
                proof {
                    assert(here.len() < spec_u32_from_be_bytes(here.subrange(0, 4)) + 12);
                    assert(spec_parse_chunks(here) == Err::<Seq<ChunkModel>, PngError>(
                        PngError::Truncated,
                    ));
                }
                return Err(PngError::Truncated);
            }
            let size = declared as usize + 12;
            let chunk_bytes = &bytes[pos..pos + size];
            proof {
                assert(chunk_bytes@ =~= here.subrange(0, size as int));
            }
            let c = match Chunk::parse(chunk_bytes) {
                Ok(c) => c,
                Err(e) => {
                    proof {
                        assert(!spec_chunk_parse_ok(here.subrange(0, size as int)));
                        assert(spec_parse_chunks(here) == Err::<Seq<ChunkModel>, PngError>(
                            spec_chunk_parse_err(here.subrange(0, size as int)),
                        ));
                    }
                    return Err(e);
                },
            };
            let ghost old_map = chunks@.map_values(|ch: Chunk| ch@);
            chunks.push(c);
            proof {
                assert(here.skip(size as int) =~= bytes@.skip(pos + size));
                assert(chunks@.map_values(|ch: Chunk| ch@) =~= old_map.push(c@));
                assert(spec_chunk_fields(here.subrange(0, size as int)) == c@);
                match spec_parse_chunks(bytes@.skip(pos + size)) {
                    Ok(rest) => {
                        assert(spec_parse_chunks(here) == Ok::<Seq<ChunkModel>, PngError>(
                            seq![c@] + rest,
                        ));
                        assert(old_map + (seq![c@] + rest) =~= old_map.push(c@) + rest);
                    },
                    Err(e) => {
                        assert(spec_parse_chunks(here) == Err::<Seq<ChunkModel>, PngError>(e));
                    },
                }
            }
            pos = pos + size;
        }
        proof {
            assert(bytes@.skip(pos as int) =~= Seq::<u8>::empty());
            assert(spec_parse_chunks(bytes@.skip(pos as int)) == Ok::<Seq<ChunkModel>, PngError>(
                Seq::empty(),
            ));
            assert(chunks@.map_values(|c: Chunk| c@) + Seq::<ChunkModel>::empty() =~= chunks@
                .map_values(|c: Chunk| c@));
        }
        Ok(Png { chunks })
    }

    /// Appends a chunk at the end of the sequence, except that a trailing
    /// end-marker chunk stays last: the new chunk then goes immediately
    /// before it.
    pub fn append_chunk(&mut self, chunk: Chunk)
        ensures
            final(self)@ == (if spec_has_trailing_iend(old(self)@) {
                old(self)@.insert(old(self)@.len() - 1, chunk@)
            } else {
                old(self)@.push(chunk@)
            }),
            old(self).wf() && chunk@.wf() ==> final(self).wf(),
    {
        let n = self.chunks.len();
        let iend: [u8; 4] = [0x49, 0x45, 0x4e, 0x44];
        proof {
            assert(iend@ =~= spec_iend_type());
        }
        if n > 0 && type_eq_slice(&self.chunks[n - 1].chunk_type, iend.as_slice()) {
            let ghost old_view = self@;
            self.chunks.insert(n - 1, chunk);
            proof {
                assert(self@ =~= old_view.insert(old_view.len() - 1, chunk@));
                assert forall|j: int| 0 <= j < self@.len() implies self@[j] == (if j < n - 1 {
                    old_view[j]
                } else if j == n - 1 {
                    chunk@
                } else {
                    old_view[j - 1]
                }) by {}
            }
        } else {
            let ghost old_view = self@;
            self.chunks.push(chunk);
            proof {
                assert(self@ =~= old_view.push(chunk@));
            }
        }
    }

    /// The first chunk whose type bytes match the given 4-byte string, or
    /// nothing when no chunk matches.
    pub fn chunk_by_type(&self, chunk_type: &str) -> (r: Option<&Chunk>)
        ensures
            match spec_find_chunk(self@, chunk_type.spec_bytes()) {
                Some(i) => r matches Some(c) && c@ == self@[i],
                None => r is None,
            },
    {
        let target = chunk_type.as_bytes();
        let mut i: usize = 0;
        while i < self.chunks.len()
            invariant
                i <= self.chunks@.len(),
                self@.len() == self.chunks@.len(),
                target@ == chunk_type.spec_bytes(),
                forall|j: int| 0 <= j < i ==> (#[trigger] self@[j]).type_bytes != target@,
            decreases self.chunks@.len() - i,
        {
            if type_eq_slice(&self.chunks[i].chunk_type, target) {
                proof {
                    assert(self@[i as int].type_bytes == target@);
                    lemma_find_chunk(self@, target@);
                    match spec_find_chunk(self@, target@) {
                        Some(k) => {
                            if k != i {
                                assert(self@[if k < i {
                                    k
                                } else {
                                    i as int
                                }].type_bytes != target@);
                            }
                        },
                        None => {
                            assert(self@[i as int].type_bytes != target@);
                        },
                    }
                }
                return Some(&self.chunks[i]);
            }
            i = i + 1;
        }
        proof {
            lemma_find_chunk(self@, target@);
        }
        None
    }

    /// Removes and returns the first chunk whose type bytes match the given
    /// string; refuses when no chunk matches, leaving the sequence as it
    /// was. The order of the remaining chunks is preserved.
    #[verifier::loop_isolation(false)]
    pub fn delete_chunk(&mut self, chunk_type: &str) -> (r: Result<Chunk, PngError>)
        ensures
            match spec_find_chunk(old(self)@, chunk_type.spec_bytes()) {
                Some(i) => r matches Ok(c) && c@ == old(self)@[i] && final(self)@ == old(
                    self,
                )@.remove(i),
                None => r matches Err(e) && e == PngError::NotFound && final(self)@ == old(self)@,
            },
            old(self).wf() ==> final(self).wf(),
    {
        let target = chunk_type.as_bytes();
        let mut i: usize = 0;
        while i < self.chunks.len()
            invariant
                *self == *old(self),
                i <= self.chunks@.len(),
                self@.len() == self.chunks@.len(),
                target@ == chunk_type.spec_bytes(),
                forall|j: int| 0 <= j < i ==> (#[trigger] self@[j]).type_bytes != target@,
            decreases self.chunks@.len() - i,
        {
            if type_eq_slice(&self.chunks[i].chunk_type, target) {
                proof {
                    assert(self@[i as int].type_bytes == target@);
                    lemma_find_chunk(self@, target@);
                    match spec_find_chunk(self@, target@) {
                        Some(k) => {
                            if k != i {
                                assert(self@[if k < i {
                                    k
                                } else {
                                    i as int
                                }].type_bytes != target@);
                            }
                        },
                        None => {
                            assert(self@[i as int].type_bytes != target@);
                        },
                    }
                }
                let ghost old_view = self@;
                let c = self.chunks.remove(i);
                proof {
                    assert(self@ =~= old_view.remove(i as int));
                    assert forall|j: int| 0 <= j < self@.len() implies self@[j] == (if j
                        < i as int {
                        old_view[j]
                    } else {
                        old_view[j + 1]
                    }) by {}
                }
                return Ok(c);
            }
            i = i + 1;
        }
        proof {
            lemma_find_chunk(self@, target@);
        }
        Err(PngError::NotFound)
    }

    /// The wire form of the container: the signature, then each chunk's
    /// serialization in sequence order.
    pub fn as_bytes(&self) -> (r: Vec<u8>)
        ensures
            r@ == spec_signature() + spec_serialize_chunks(self@),
    {
        let mut out: Vec<u8> = Vec::new();
        out.push(0x89);
        out.push(0x50);
        out.push(0x4e);
        out.push(0x47);
        out.push(0x0d);
        out.push(0x0a);
        out.push(0x1a);
        out.push(0x0a);
        proof {
            assert(out@ =~= spec_signature());
            assert(self@.take(0) =~= Seq::<ChunkModel>::empty());
            assert(out@ + spec_serialize_chunks(self@.take(0)) =~= out@);
        }
        let mut i: usize = 0;
        while i < self.chunks.len()
            invariant
                i <= self.chunks@.len(),
                self@.len() == self.chunks@.len(),
                out@ == spec_signature() + spec_serialize_chunks(self@.take(i as int)),
            decreases self.chunks@.len() - i,
        {
            let cb = self.chunks[i].as_bytes();
            out.extend_from_slice(cb.as_slice());
            proof {
                lemma_serialize_chunks_snoc(self@, i as int);
                assert((spec_signature() + spec_serialize_chunks(self@.take(i as int))) + cb@
                    =~= spec_signature() + spec_serialize_chunks(self@.take(i + 1)));
            }
            i = i + 1;
        }
        proof {
            assert(self@.take(self@.len() as int) =~= self@);
        }
        out
    }
}

/// Serializing one more chunk appends that chunk's wire form.
pub proof fn lemma_serialize_chunks_snoc(s: Seq<ChunkModel>, i: int)
    requires
        0 <= i < s.len(),
    ensures
        spec_serialize_chunks(s.take(i + 1)) == spec_serialize_chunks(s.take(i)) + s[i].serialized(),
    decreases i,
{
    if i == 0 {
        assert(s.take(1).drop_first() =~= Seq::<ChunkModel>::empty());
        assert(s.take(0) =~= Seq::<ChunkModel>::empty());
        assert(s.take(1)[0] == s[0]);
        assert(spec_serialize_chunks(s.take(1)) =~= spec_serialize_chunks(s.take(0))
            + s[0].serialized());
    } else {
        lemma_serialize_chunks_snoc(s.drop_first(), i - 1);
        assert(s.take(i + 1).drop_first() =~= s.drop_first().take(i));
        assert(s.take(i).drop_first() =~= s.drop_first().take(i - 1));
        assert(s.take(i + 1)[0] == s[0]);
        assert(s.take(i)[0] == s[0]);
        assert(s.drop_first()[i - 1] == s[i]);
        assert(s[0].serialized() + (spec_serialize_chunks(s.drop_first().take(i - 1))
            + s[i].serialized()) =~= (s[0].serialized() + spec_serialize_chunks(
            s.drop_first().take(i - 1),
        )) + s[i].serialized());
    }
}

/// One step of decoding: a well-formed chunk's wire form, followed by bytes
/// that decode to some sequence, decodes to that chunk followed by the
/// sequence.
#[verifier::rlimit(50)]
proof fn lemma_parse_chunks_cons(head: ChunkModel, rb: Seq<u8>, rest: Seq<ChunkModel>)
    requires
        head.wf(),
        spec_parse_chunks(rb) == Ok::<Seq<ChunkModel>, PngError>(rest),
    ensures
        spec_parse_chunks(head.serialized() + rb) == Ok::<Seq<ChunkModel>, PngError>(
            seq![head] + rest,
        ),
{
    let hb = head.serialized();
    let b = hb + rb;
    lemma_chunk_round_trip(head);
    assert(hb.len() == 12 + head.data.len());
    assert(b.subrange(0, 4) =~= hb.subrange(0, 4));
    assert(spec_u32_from_be_bytes(b.subrange(0, 4)) == head.length);
    assert(head.length + 12 == hb.len());
    assert(b.len() >= head.length + 12);
    assert(b.subrange(0, hb.len() as int) =~= hb);
    assert(b.skip(hb.len() as int) =~= rb);
    assert(spec_chunk_fields(hb) == head);
    assert(spec_parse_chunks(b) == Ok::<Seq<ChunkModel>, PngError>(seq![head] + rest));
}

/// Round trip: the serialization of any sequence of well-formed chunks
/// parses back to the same sequence.
pub proof fn lemma_png_round_trip(chunks: Seq<ChunkModel>)
    requires
        forall|i: int| 0 <= i < chunks.len() ==> (#[trigger] chunks[i]).wf(),
    ensures
        spec_parse_chunks(spec_serialize_chunks(chunks)) == Ok::<Seq<ChunkModel>, PngError>(chunks),
    decreases chunks.len(),
{
    if chunks.len() == 0 {
        assert(chunks =~= Seq::<ChunkModel>::empty());
    } else {
        let head = chunks[0];
        let rest = chunks.drop_first();
        assert(forall|i: int| 0 <= i < rest.len() ==> (#[trigger] rest[i]).wf()) by {
            assert(forall|i: int| 0 <= i < rest.len() ==> rest[i] == chunks[i + 1]);
        }
        lemma_png_round_trip(rest);
        lemma_parse_chunks_cons(head, spec_serialize_chunks(rest), rest);
        assert(spec_serialize_chunks(chunks) == head.serialized() + spec_serialize_chunks(rest));
        assert(seq![head] + rest =~= chunks);
    }
}

/// Round trip at the container level: the full wire form of a well-formed
/// container begins with the signature and decodes to the same chunk
/// sequence.
#[verifier::rlimit(100)]
pub proof fn lemma_png_round_trip_full(chunks: Seq<ChunkModel>)
    requires
        forall|i: int| 0 <= i < chunks.len() ==> (#[trigger] chunks[i]).wf(),
    ensures
        (spec_signature() + spec_serialize_chunks(chunks)).len() >= 8,
        (spec_signature() + spec_serialize_chunks(chunks)).subrange(0, 8) == spec_signature(),
        spec_parse_chunks((spec_signature() + spec_serialize_chunks(chunks)).skip(8))
            == Ok::<Seq<ChunkModel>, PngError>(chunks),
{
    let ser = spec_serialize_chunks(chunks);
    let bytes = spec_signature() + ser;
    lemma_png_round_trip(chunks);
    assert(bytes.len() >= 8);
    assert(bytes.subrange(0, 8) =~= spec_signature());
    assert(bytes.skip(8) =~= ser);
    assert(spec_parse_chunks(bytes.skip(8)) == Ok::<Seq<ChunkModel>, PngError>(chunks));
}

} // verus!

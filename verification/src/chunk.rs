//! A length-prefixed, type-tagged, checksummed payload: the unit the
//! container format is made of.  On the wire a chunk is
//! `LENGTH (4 bytes big-endian) | TAG (4 bytes) | DATA | CRC (4 bytes
//! big-endian)`, where the checksum covers the tag and the payload.

use vstd::prelude::*;
use vstd::utf8::decode_utf8;
use vstd::utf8::valid_utf8;

use crate::be32::lemma_u32_be_bytes_round_trip;
use crate::be32::push_u32_be;
use crate::be32::spec_u32_from_be_bytes;
use crate::be32::spec_u32_to_be_bytes;
use crate::be32::u32_from_be;
use crate::checksum::crc32;
use crate::checksum::crc32_of;
use crate::chunk_type::tag_valid;
use crate::chunk_type::tag_well_formed;
use crate::chunk_type::ChunkType;
use crate::error::FormatError;
use crate::text::bytes_to_utf8;

verus! {

/// The mathematical content of a chunk: the four fields as they stand on
/// the wire.
#[verifier::ext_equal]
pub ghost struct ChunkModel {
    pub length: u32,
    pub tag: Seq<u8>,
    pub data: Seq<u8>,
    pub crc: u32,
}

/// The invariant every constructed chunk carries: a well-formed tag, a
/// length field that counts the payload bytes, and a checksum over tag
/// and payload.
pub open spec fn chunk_wf(m: ChunkModel) -> bool {
    &&& tag_well_formed(m.tag)
    &&& m.length == m.data.len()
    &&& m.crc == crc32_of(m.tag + m.data)
}

/// The serialized form of a chunk.
pub open spec fn spec_chunk_bytes(m: ChunkModel) -> Seq<u8> {
    spec_u32_to_be_bytes(m.length) + m.tag + m.data + spec_u32_to_be_bytes(m.crc)
}

/// What parsing a chunk from the front of a buffer yields.  Trailing
/// bytes beyond the chunk are ignored here; the container decides what
/// they mean.  Reading fails on a short buffer, then on a malformed tag;
/// a fully read chunk fails validation on an invalid tag, then on a
/// checksum disagreement.
pub open spec fn spec_chunk_parse(b: Seq<u8>) -> Result<ChunkModel, FormatError> {
    if b.len() < 8 {
        Err(FormatError::Truncated)
    } else {
        let length = spec_u32_from_be_bytes(b.subrange(0, 4));
        let tag = b.subrange(4, 8);
        if !tag_well_formed(tag) {
            Err(FormatError::InvalidTag)
        } else if b.len() < 12 + length {
            Err(FormatError::Truncated)
        } else {
            let data = b.subrange(8, 8 + length);
            let actual = spec_u32_from_be_bytes(b.subrange(8 + length, 12 + length));
            let expected = crc32_of(tag + data);
            if !tag_valid(tag) {
                Err(FormatError::InvalidTag)
            } else if actual != expected {
                Err(FormatError::CrcMismatch { expected, actual })
            } else {
                Ok(ChunkModel { length, tag, data, crc: actual })
            }
        }
    }
}

/// A chunk held in memory.  Immutable once built; both constructors
/// establish `chunk_wf` of its view.
#[derive(Debug, Clone)]
pub struct Chunk {
    length: u32,
    chunk_type: ChunkType,
    data: Vec<u8>,
    crc: u32,
}

impl View for Chunk {
    type V = ChunkModel;

    closed spec fn view(&self) -> ChunkModel {
        ChunkModel {
            length: self.length,
            tag: self.chunk_type@,
            data: self.data@,
            crc: self.crc,
        }
    }
}

impl Chunk {
    /// Builds a chunk from a tag and a payload; the length and checksum
    /// are computed, never supplied.  The tag is taken as given: validity
    /// beyond well-formedness is not demanded here.
    pub fn new(chunk_type: ChunkType, data: Vec<u8>) -> (r: Chunk)
        requires
            data@.len() <= u32::MAX,
        ensures
            r@ == (ChunkModel {
                length: data@.len() as u32,
                tag: chunk_type@,
                data: data@,
                crc: crc32_of(chunk_type@ + data@),
            }),
            chunk_wf(r@),
    {
        proof {
            use_type_invariant(&chunk_type);
        }
        let length = data.len() as u32;
        let tag_bytes = chunk_type.bytes();
        let mut covered: Vec<u8> = Vec::new();
        covered.extend_from_slice(tag_bytes.as_slice());
        covered.extend_from_slice(data.as_slice());
        proof {
            assert(covered@ =~= chunk_type@ + data@);
        }
        let crc = crc32(&covered);
        let r = Chunk { length, chunk_type, data, crc };
        proof {
            assert(r@ =~= (ChunkModel {
                length: r@.data.len() as u32,
                tag: chunk_type@,
                data: r@.data,
                crc: crc32_of(chunk_type@ + r@.data),
            }));
        }
        r
    }

    /// The number of payload bytes.
    pub fn length(&self) -> (r: u32)
        ensures
            r == self@.length,
    {
        self.length
    }

    /// The chunk's type tag.
    pub fn chunk_type(&self) -> (r: ChunkType)
        ensures
            r@ == self@.tag,
    {
        self.chunk_type
    }

    /// The payload bytes.
    pub fn data(&self) -> (r: &[u8])
        ensures
            r@ == self@.data,
    {
        self.data.as_slice()
    }

    /// The stored checksum.
    pub fn crc(&self) -> (r: u32)
        ensures
            r == self@.crc,
    {
        self.crc
    }

    /// The payload read as UTF-8 text; fails exactly when the bytes are
    /// not valid UTF-8.
    pub fn data_as_string(&self) -> (r: Result<String, FormatError>)
        ensures
            valid_utf8(self@.data) ==> (r matches Ok(s) && s@ == decode_utf8(self@.data)),
            !valid_utf8(self@.data) ==> r == Err::<String, FormatError>(FormatError::InvalidText),
    {
        match bytes_to_utf8(&self.data) {
            Some(s) => Ok(s),
            None => Err(FormatError::InvalidText),
        }
    }

    /// The chunk's serialized form, the exact inverse of `parse`.
    pub fn as_bytes(&self) -> (r: Vec<u8>)
        ensures
            r@ == spec_chunk_bytes(self@),
    {
        let mut out: Vec<u8> = Vec::new();
        push_u32_be(&mut out, self.length);
        let tag_bytes = self.chunk_type.bytes();
        out.extend_from_slice(tag_bytes.as_slice());
        out.extend_from_slice(self.data.as_slice());
        push_u32_be(&mut out, self.crc);
        proof {
            assert(out@ =~= spec_chunk_bytes(self@));
        }
        out
    }

    /// Parses one chunk from the front of `bytes`, ignoring anything
    /// after it.
    pub fn parse(bytes: &[u8]) -> (r: Result<Chunk, FormatError>)
        ensures
            r matches Ok(c) ==> spec_chunk_parse(bytes@) == Ok::<ChunkModel, FormatError>(c@)
                && chunk_wf(c@) && tag_valid(c@.tag),
            r matches Err(e) ==> spec_chunk_parse(bytes@) == Err::<ChunkModel, FormatError>(e),
    {
        proof {
            assert(bytes@.skip(0) =~= bytes@);
        }
        match Self::parse_at(bytes, 0) {
            Ok(parsed) => Ok(parsed.0),
            Err(e) => Err(e),
        }
    }

    /// Parses one chunk starting at offset `off` and reports how many
    /// bytes it occupied.
    pub(crate) fn parse_at(bytes: &[u8], off: usize) -> (r: Result<(Chunk, usize), FormatError>)
        requires
            off <= bytes@.len(),
        ensures
            r matches Ok(p) ==> spec_chunk_parse(bytes@.skip(off as int)) == Ok::<
                ChunkModel,
                FormatError,
            >(p.0@) && chunk_wf(p.0@) && tag_valid(p.0@.tag) && p.1 == 12 + p.0@.data.len() && off
                + p.1 <= bytes@.len(),
            r matches Err(e) ==> spec_chunk_parse(bytes@.skip(off as int)) == Err::<
                ChunkModel,
                FormatError,
            >(e),
    {
        let ghost b = bytes@.skip(off as int);
        let n = bytes.len();
        let rem = n - off;
        if rem < 8 {
            return Err(FormatError::Truncated);
        }
        let l0 = *vstd::slice::slice_index_get(bytes, off);
        let l1 = *vstd::slice::slice_index_get(bytes, off + 1);
        let l2 = *vstd::slice::slice_index_get(bytes, off + 2);
        let l3 = *vstd::slice::slice_index_get(bytes, off + 3);
        let length = u32_from_be(l0, l1, l2, l3);
        proof {
            assert(seq![l0, l1, l2, l3] =~= b.subrange(0, 4));
        }
        let t0 = *vstd::slice::slice_index_get(bytes, off + 4);
        let t1 = *vstd::slice::slice_index_get(bytes, off + 5);
        let t2 = *vstd::slice::slice_index_get(bytes, off + 6);
        let t3 = *vstd::slice::slice_index_get(bytes, off + 7);
        proof {
            assert([t0, t1, t2, t3]@ =~= b.subrange(4, 8));
        }
        let chunk_type = match ChunkType::from_bytes([t0, t1, t2, t3]) {
            Ok(t) => t,
            Err(e) => {
                return Err(e);
            },
        };
        if rem < 12 || rem - 12 < length as usize {
            return Err(FormatError::Truncated);
        }
        let data_start = off + 8;
        let data_end = data_start + length as usize;
        let data = vstd::slice::slice_to_vec(
            vstd::slice::slice_subrange(bytes, data_start, data_end),
        );
        proof {
            assert(data@ =~= b.subrange(8, 8 + length as int));
            // The defensive length check of the format: the payload read
            // really is as long as the length field declared.
            assert(data@.len() == length);
        }
        let c0 = *vstd::slice::slice_index_get(bytes, data_end);
        let c1 = *vstd::slice::slice_index_get(bytes, data_end + 1);
        let c2 = *vstd::slice::slice_index_get(bytes, data_end + 2);
        let c3 = *vstd::slice::slice_index_get(bytes, data_end + 3);
        let actual = u32_from_be(c0, c1, c2, c3);
        proof {
            assert(seq![c0, c1, c2, c3] =~= b.subrange(8 + length as int, 12 + length as int));
        }
        let tag_bytes = chunk_type.bytes();
        let mut covered: Vec<u8> = Vec::new();
        covered.extend_from_slice(tag_bytes.as_slice());
        covered.extend_from_slice(data.as_slice());
        proof {
            assert(covered@ =~= chunk_type@ + data@);
        }
        let expected = crc32(&covered);
        if !chunk_type.is_valid() {
            return Err(FormatError::InvalidTag);
        }
        if actual != expected {
            return Err(FormatError::CrcMismatch { expected, actual });
        }
        let chunk = Chunk { length, chunk_type, data, crc: actual };
        Ok((chunk, 12 + length as usize))
    }
}

/// Law: a serialized well-formed chunk with a valid tag, followed by any
/// trailing bytes, parses back to the same chunk, and the chunk occupies
/// exactly its serialized length.
pub proof fn lemma_chunk_bytes_parse_prefix(m: ChunkModel, rest: Seq<u8>)
    requires
        chunk_wf(m),
        tag_valid(m.tag),
    ensures
        spec_chunk_parse(spec_chunk_bytes(m) + rest) == Ok::<ChunkModel, FormatError>(m),
        spec_chunk_bytes(m).len() == 12 + m.data.len(),
        (spec_chunk_bytes(m) + rest).skip(12 + m.data.len() as int) == rest,
{
    let b = spec_chunk_bytes(m) + rest;
    lemma_u32_be_bytes_round_trip(m.length, spec_u32_to_be_bytes(m.length));
    lemma_u32_be_bytes_round_trip(m.crc, spec_u32_to_be_bytes(m.crc));
    assert(b.subrange(0, 4) =~= spec_u32_to_be_bytes(m.length));
    assert(b.subrange(4, 8) =~= m.tag);
    assert(b.subrange(8, 8 + m.length as int) =~= m.data);
    assert(b.subrange(8 + m.length as int, 12 + m.length as int) =~= spec_u32_to_be_bytes(m.crc));
    assert(b.skip(12 + m.data.len() as int) =~= rest);
    assert(spec_chunk_parse(b) == Ok::<ChunkModel, FormatError>(m)) by {
        let parsed = ChunkModel {
            length: m.length,
            tag: m.tag,
            data: m.data,
            crc: m.crc,
        };
        assert(parsed =~= m);
    }
}

/// Law: a successfully parsed chunk is well formed, carries a valid tag,
/// fits in the buffer it was read from, and re-serializes to exactly the
/// bytes it occupied there.
pub proof fn lemma_chunk_parse_exact(b: Seq<u8>)
    requires
        spec_chunk_parse(b) is Ok,
    ensures
        chunk_wf(spec_chunk_parse(b)->Ok_0),
        tag_valid(spec_chunk_parse(b)->Ok_0.tag),
        12 + spec_chunk_parse(b)->Ok_0.data.len() <= b.len(),
        spec_chunk_bytes(spec_chunk_parse(b)->Ok_0) == b.take(
            12 + spec_chunk_parse(b)->Ok_0.data.len() as int,
        ),
{
    let m = spec_chunk_parse(b)->Ok_0;
    lemma_u32_be_bytes_round_trip(m.length, b.subrange(0, 4));
    lemma_u32_be_bytes_round_trip(m.crc, b.subrange(8 + m.length as int, 12 + m.length as int));
    assert(spec_u32_to_be_bytes(m.length) == b.subrange(0, 4));
    assert(spec_u32_to_be_bytes(m.crc) == b.subrange(8 + m.length as int, 12 + m.length as int));
    assert(spec_chunk_bytes(m) =~= b.take(12 + m.data.len() as int));
}

/// Law: for any chunk, parsing its serialized bytes yields the chunk
/// itself.  A chunk whose tag is well formed but not valid (the reserved
/// bit unset) is excluded: parsing such bytes reports `InvalidTag`.
pub proof fn lemma_chunk_round_trip(m: ChunkModel)
    requires
        chunk_wf(m),
        tag_valid(m.tag),
    ensures
        spec_chunk_parse(spec_chunk_bytes(m)) == Ok::<ChunkModel, FormatError>(m),
{
    lemma_chunk_bytes_parse_prefix(m, Seq::<u8>::empty());
    assert(spec_chunk_bytes(m) + Seq::<u8>::empty() =~= spec_chunk_bytes(m));
}

/// Law (checksum sensitivity): take a well-formed chunk and corrupt its
/// tag or its payload, keeping the lengths; as long as the corrupted
/// content checksums differently from the stored checksum and the
/// corrupted tag still passes validation, parsing the corrupted bytes
/// fails with `CrcMismatch`.
pub proof fn lemma_corruption_detected(m: ChunkModel, tag2: Seq<u8>, data2: Seq<u8>)
    requires
        chunk_wf(m),
        tag_valid(tag2),
        data2.len() == m.data.len(),
        crc32_of(tag2 + data2) != m.crc,
    ensures
        spec_chunk_parse(
            spec_u32_to_be_bytes(m.length) + tag2 + data2 + spec_u32_to_be_bytes(m.crc),
        ) == Err::<ChunkModel, FormatError>(
            FormatError::CrcMismatch { expected: crc32_of(tag2 + data2), actual: m.crc },
        ),
{
    let b = spec_u32_to_be_bytes(m.length) + tag2 + data2 + spec_u32_to_be_bytes(m.crc);
    lemma_u32_be_bytes_round_trip(m.length, spec_u32_to_be_bytes(m.length));
    lemma_u32_be_bytes_round_trip(m.crc, spec_u32_to_be_bytes(m.crc));
    assert(b.subrange(0, 4) =~= spec_u32_to_be_bytes(m.length));
    assert(b.subrange(4, 8) =~= tag2);
    assert(b.subrange(8, 8 + m.length as int) =~= data2);
    assert(b.subrange(8 + m.length as int, 12 + m.length as int) =~= spec_u32_to_be_bytes(m.crc));
}

} // verus!

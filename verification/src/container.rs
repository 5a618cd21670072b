//! The full parsed representation of a file: the fixed 8-byte signature
//! followed by an ordered sequence of chunks.  Order is significant: it
//! decides first-match lookup and is preserved by serialization.

use vstd::prelude::*;
use vstd::string::StringSliceAdditionalSpecFns;

use crate::chunk::chunk_wf;
use crate::chunk::spec_chunk_bytes;
use crate::chunk::spec_chunk_parse;
use crate::chunk::Chunk;
use crate::chunk::ChunkModel;
use crate::chunk::lemma_chunk_bytes_parse_prefix;
use crate::chunk_type::spec_tag_from_string;
use crate::chunk_type::tag_valid;
use crate::chunk_type::ChunkType;
use crate::error::FormatError;

verus! {

/// The fixed magic bytes every container starts with.
pub open spec fn spec_signature() -> Seq<u8> {
    seq![137u8, 80u8, 78u8, 71u8, 13u8, 10u8, 26u8, 10u8]
}

/// The models of a sequence of in-memory chunks.
pub open spec fn models_of(s: Seq<Chunk>) -> Seq<ChunkModel> {
    s.map_values(|c: Chunk| c@)
}

/// What parsing back-to-back chunks until the buffer is exhausted
/// yields: the buffer must be covered exactly, and the first chunk
/// failure is reported as the whole result.
pub open spec fn spec_chunks_parse(b: Seq<u8>) -> Result<Seq<ChunkModel>, FormatError>
    decreases b.len(),
{
    if b.len() == 0 {
        Ok(Seq::<ChunkModel>::empty())
    } else {
        match spec_chunk_parse(b) {
            Err(e) => Err(e),
            Ok(m) => {
                let size = 12 + m.data.len() as int;
                if size <= b.len() {
                    match spec_chunks_parse(b.skip(size)) {
                        Err(e) => Err(e),
                        Ok(rest) => Ok(seq![m] + rest),
                    }
                } else {
                    Err(FormatError::Truncated)
                }
            },
        }
    }
}

/// What parsing a whole buffer yields: the signature, then chunks until
/// the end.
pub open spec fn spec_container_parse(b: Seq<u8>) -> Result<Seq<ChunkModel>, FormatError> {
    if b.len() < 8 || b.subrange(0, 8) != spec_signature() {
        Err(FormatError::BadSignature)
    } else {
        spec_chunks_parse(b.skip(8))
    }
}

/// The concatenation of the serialized chunks, in order.
pub open spec fn spec_chunks_bytes(s: Seq<ChunkModel>) -> Seq<u8>
    decreases s.len(),
{
    if s.len() == 0 {
        Seq::<u8>::empty()
    } else {
        spec_chunk_bytes(s[0]) + spec_chunks_bytes(s.drop_first())
    }
}

/// The serialized container: signature, then every chunk.
pub open spec fn spec_container_bytes(s: Seq<ChunkModel>) -> Seq<u8> {
    spec_signature() + spec_chunks_bytes(s)
}

/// Every chunk in `s` is well formed and carries a valid tag.
pub open spec fn all_chunks_wf(s: Seq<ChunkModel>) -> bool {
    forall|i: int| 0 <= i < s.len() ==> chunk_wf(#[trigger] s[i]) && tag_valid(s[i].tag)
}

/// Chunk `i` is the first one in `s` carrying `tag`.
pub open spec fn is_first_match(s: Seq<ChunkModel>, tag: Seq<u8>, i: int) -> bool {
    &&& 0 <= i < s.len()
    &&& s[i].tag == tag
    &&& forall|j: int| 0 <= j < i ==> (#[trigger] s[j]).tag != tag
}

/// Some chunk in `s` carries `tag`.
pub open spec fn has_match(s: Seq<ChunkModel>, tag: Seq<u8>) -> bool {
    exists|i: int| 0 <= i < s.len() && (#[trigger] s[i]).tag == tag
}

/// An in-memory container: the ordered chunks between the signature and
/// the end of the file.
#[derive(Debug, Clone)]
pub struct Container {
    chunks: Vec<Chunk>,
}

impl View for Container {
    type V = Seq<ChunkModel>;

    closed spec fn view(&self) -> Seq<ChunkModel> {
        models_of(self.chunks@)
    }
}

impl Container {
    /// Parses a complete buffer: the 8 signature bytes, then chunks
    /// back to back until the buffer ends exactly.  All or nothing: a
    /// failure anywhere yields no container at all.
    pub fn parse(bytes: &[u8]) -> (r: Result<Container, FormatError>)
        ensures
            r matches Ok(c) ==> spec_container_parse(bytes@) == Ok::<
                Seq<ChunkModel>,
                FormatError,
            >(c@),
            r matches Err(e) ==> spec_container_parse(bytes@) == Err::<
                Seq<ChunkModel>,
                FormatError,
            >(e),
    {
        let n = bytes.len();
        if n < 8 {
            return Err(FormatError::BadSignature);
        }
        let s0 = *vstd::slice::slice_index_get(bytes, 0);
        let s1 = *vstd::slice::slice_index_get(bytes, 1);
        let s2 = *vstd::slice::slice_index_get(bytes, 2);
        let s3 = *vstd::slice::slice_index_get(bytes, 3);
        let s4 = *vstd::slice::slice_index_get(bytes, 4);
        let s5 = *vstd::slice::slice_index_get(bytes, 5);
        let s6 = *vstd::slice::slice_index_get(bytes, 6);
        let s7 = *vstd::slice::slice_index_get(bytes, 7);
        if !(s0 == 137 && s1 == 80 && s2 == 78 && s3 == 71 && s4 == 13 && s5 == 10 && s6 == 26
            && s7 == 10) {
            proof {
                assert(bytes@.subrange(0, 8)[0] == s0);
                assert(bytes@.subrange(0, 8)[1] == s1);
                assert(bytes@.subrange(0, 8)[2] == s2);
                assert(bytes@.subrange(0, 8)[3] == s3);
                assert(bytes@.subrange(0, 8)[4] == s4);
                assert(bytes@.subrange(0, 8)[5] == s5);
                assert(bytes@.subrange(0, 8)[6] == s6);
                assert(bytes@.subrange(0, 8)[7] == s7);
            }
            return Err(FormatError::BadSignature);
        }
        proof {
            assert(bytes@.subrange(0, 8) =~= spec_signature());
        }
        let mut chunks: Vec<Chunk> = Vec::new();
        let mut off: usize = 8;
        while off < n
            invariant
                8 <= off <= n,
                n == bytes@.len(),
                bytes@.subrange(0, 8) == spec_signature(),
                spec_chunks_parse(bytes@.skip(off as int)) matches Ok(rest) ==> spec_chunks_parse(
                    bytes@.skip(8),
                ) == Ok::<Seq<ChunkModel>, FormatError>(models_of(chunks@) + rest),
                spec_chunks_parse(bytes@.skip(off as int)) matches Err(e) ==> spec_chunks_parse(
                    bytes@.skip(8),
                ) == Err::<Seq<ChunkModel>, FormatError>(e),
            decreases n - off,
        {
            let ghost prefix_models = models_of(chunks@);
            match Chunk::parse_at(bytes, off) {
                Err(e) => {
                    return Err(e);
                },
                Ok(parsed) => {
                    let (chunk, consumed) = parsed;
                    proof {
                        assert(bytes@.skip(off as int).skip(consumed as int) =~= bytes@.skip(
                            off as int + consumed as int,
                        ));
                    }
                    chunks.push(chunk);
                    off = off + consumed;
                    proof {
                        assert(models_of(chunks@) =~= prefix_models + seq![chunk@]);
                        assert forall|rest: Seq<ChunkModel>|
                            spec_chunks_parse(bytes@.skip(off as int)) == Ok::<
                                Seq<ChunkModel>,
                                FormatError,
                            >(rest) implies spec_chunks_parse(bytes@.skip(8)) == Ok::<
                            Seq<ChunkModel>,
                            FormatError,
                        >(models_of(chunks@) + rest) by {
                            assert((prefix_models + seq![chunk@]) + rest =~= prefix_models + (seq![
                                chunk@,
                            ] + rest));
                        }
                    }
                },
            }
        }
        proof {
            assert(bytes@.skip(n as int) =~= Seq::<u8>::empty());
            assert(models_of(chunks@) + Seq::<ChunkModel>::empty() =~= models_of(chunks@));
        }
        Ok(Container { chunks })
    }

    /// Appends a chunk at the end of the sequence.
    pub fn append_chunk(&mut self, chunk: Chunk)
        ensures
            final(self)@ == old(self)@.push(chunk@),
    {
        self.chunks.push(chunk);
        proof {
            assert(self@ =~= old(self)@.push(chunk@));
        }
    }

    /// Finds the first chunk whose tag matches the given type string.
    /// A malformed type string is a failure of its own, distinct from a
    /// miss, which is `Ok(None)`.
    #[verifier::spinoff_prover]
    #[verifier::rlimit(30)]
    pub fn chunk_by_type(&self, tag: &str) -> (r: Result<Option<&Chunk>, FormatError>)
        ensures
            r matches Err(e) ==> spec_tag_from_string(tag.spec_bytes()) == Err::<
                Seq<u8>,
                FormatError,
            >(e),
            r is Ok ==> spec_tag_from_string(tag.spec_bytes()) is Ok,
            r matches Ok(Some(c)) ==> exists|i: int|
                #[trigger] is_first_match(self@, spec_tag_from_string(tag.spec_bytes())->Ok_0, i)
                    && c@ == self@[i],
            r matches Ok(None) ==> !has_match(
                self@,
                spec_tag_from_string(tag.spec_bytes())->Ok_0,
            ),
    {
        let target = match ChunkType::from_string(tag) {
            Ok(t) => t,
            Err(e) => {
                return Err(e);
            },
        };
        let n = self.chunks.len();
        let mut i: usize = 0;
        while i < n
            invariant
                i <= n,
                n == self.chunks@.len(),
                spec_tag_from_string(tag.spec_bytes()) == Ok::<Seq<u8>, FormatError>(target@),
                forall|j: int| 0 <= j < i ==> (#[trigger] self@[j]).tag != target@,
            decreases n - i,
        {
            let c = vstd::slice::slice_index_get(self.chunks.as_slice(), i);
            if c.chunk_type() == target {
                proof {
                    assert(c@ == self@[i as int]);
                    assert(is_first_match(self@, target@, i as int));
                    assert(spec_tag_from_string(tag.spec_bytes())->Ok_0 == target@);
                    assert(exists|j: int|
                        #[trigger] is_first_match(
                            self@,
                            spec_tag_from_string(tag.spec_bytes())->Ok_0,
                            j,
                        ) && c@ == self@[j]);
                }
                return Ok(Some(c));
            }
            i = i + 1;
        }
        Ok(None)
    }

    /// Removes and returns the first chunk whose tag matches the given
    /// type string; later chunks with the same tag stay.  Fails with
    /// `ChunkNotFound` when no chunk matches, and leaves the container
    /// unchanged on any failure.
    #[verifier::spinoff_prover]
    #[verifier::rlimit(30)]
    pub fn remove_chunk(&mut self, tag: &str) -> (r: Result<Chunk, FormatError>)
        ensures
            r is Ok ==> spec_tag_from_string(tag.spec_bytes()) is Ok,
            r matches Ok(c) ==> exists|i: int|
                #[trigger] is_first_match(
                    old(self)@,
                    spec_tag_from_string(tag.spec_bytes())->Ok_0,
                    i,
                ) && c@ == old(self)@[i] && final(self)@ == old(self)@.remove(i),
            r is Err ==> final(self)@ == old(self)@,
            r matches Err(e) ==> (spec_tag_from_string(tag.spec_bytes()) matches Err(e2) ==> e
                == e2),
            r matches Err(e) ==> (spec_tag_from_string(tag.spec_bytes()) is Ok ==> e
                == FormatError::ChunkNotFound && !has_match(
                old(self)@,
                spec_tag_from_string(tag.spec_bytes())->Ok_0,
            )),
    {
        let target = match ChunkType::from_string(tag) {
            Ok(t) => t,
            Err(e) => {
                return Err(e);
            },
        };
        let n = self.chunks.len();
        let mut i: usize = 0;
        while i < n
            invariant
                i <= n,
                n == self.chunks@.len(),
                self@ == old(self)@,
                self.chunks@ == old(self).chunks@,
                spec_tag_from_string(tag.spec_bytes()) == Ok::<Seq<u8>, FormatError>(target@),
                forall|j: int| 0 <= j < i ==> (#[trigger] self@[j]).tag != target@,
            decreases n - i,
        {
            let found = {
                let c = vstd::slice::slice_index_get(self.chunks.as_slice(), i);
                c.chunk_type() == target
            };
            if found {
                let ghost pre = self@;
                let removed = self.chunks.remove(i);
                proof {
                    assert(removed@ == pre[i as int]);
                    assert(is_first_match(old(self)@, target@, i as int));
                    assert(self@ =~= old(self)@.remove(i as int));
                    assert(spec_tag_from_string(tag.spec_bytes())->Ok_0 == target@);
                    assert(exists|j: int|
                        #[trigger] is_first_match(
                            old(self)@,
                            spec_tag_from_string(tag.spec_bytes())->Ok_0,
                            j,
                        ) && removed@ == old(self)@[j] && self@ == old(self)@.remove(j));
                }
                return Ok(removed);
            }
            i = i + 1;
        }
        Err(FormatError::ChunkNotFound)
    }

    /// The chunks the container holds, in order.
    pub fn chunks(&self) -> (r: &[Chunk])
        ensures
            models_of(r@) == self@,
    {
        self.chunks.as_slice()
    }

    /// The serialized container: the signature, then each chunk's bytes
    /// in sequence order.
    pub fn as_bytes(&self) -> (r: Vec<u8>)
        ensures
            r@ == spec_container_bytes(self@),
    {
        let mut out: Vec<u8> = Vec::new();
        out.push(137);
        out.push(80);
        out.push(78);
        out.push(71);
        out.push(13);
        out.push(10);
        out.push(26);
        out.push(10);
        proof {
            assert(out@ =~= spec_signature());
            assert(self@.take(0) =~= Seq::<ChunkModel>::empty());
        }
        let n = self.chunks.len();
        let mut i: usize = 0;
        while i < n
            invariant
                i <= n,
                n == self.chunks@.len(),
                out@ == spec_signature() + spec_chunks_bytes(self@.take(i as int)),
            decreases n - i,
        {
            let mut chunk_bytes = vstd::slice::slice_index_get(
                self.chunks.as_slice(),
                i,
            ).as_bytes();
            out.append(&mut chunk_bytes);
            proof {
                assert(self@.take(i as int).push(self@[i as int]) =~= self@.take(i as int + 1));
                lemma_chunks_bytes_push(self@.take(i as int), self@[i as int]);
            }
            i = i + 1;
        }
        proof {
            assert(self@.take(n as int) =~= self@);
        }
        out
    }
}

/// Law: serializing one more chunk appends its bytes.
#[verifier::spinoff_prover]
#[verifier::rlimit(30)]
pub proof fn lemma_chunks_bytes_push(s: Seq<ChunkModel>, m: ChunkModel)
    ensures
        spec_chunks_bytes(s.push(m)) == spec_chunks_bytes(s) + spec_chunk_bytes(m),
    decreases s.len(),
{
    if s.len() == 0 {
        assert(s.push(m).len() == 1);
        assert(s.push(m)[0] == m);
        assert(s.push(m).drop_first() =~= Seq::<ChunkModel>::empty());
        assert(spec_chunks_bytes(s.push(m)) == spec_chunk_bytes(s.push(m)[0]) + spec_chunks_bytes(
            s.push(m).drop_first(),
        ));
        assert(spec_chunks_bytes(Seq::<ChunkModel>::empty()) == Seq::<u8>::empty());
        assert(spec_chunks_bytes(s) == Seq::<u8>::empty());
        assert(spec_chunk_bytes(m) + Seq::<u8>::empty() =~= spec_chunk_bytes(m));
        assert(spec_chunks_bytes(s) + spec_chunk_bytes(m) =~= spec_chunk_bytes(m));
        assert(spec_chunks_bytes(s.push(m)) =~= spec_chunks_bytes(s) + spec_chunk_bytes(m));
    } else {
        assert(s.push(m)[0] == s[0]);
        assert(s.push(m).drop_first() =~= s.drop_first().push(m));
        lemma_chunks_bytes_push(s.drop_first(), m);
        assert(spec_chunks_bytes(s.push(m)) == spec_chunk_bytes(s[0]) + spec_chunks_bytes(
            s.drop_first().push(m),
        ));
        assert(spec_chunk_bytes(s[0]) + (spec_chunks_bytes(s.drop_first()) + spec_chunk_bytes(m))
            =~= (spec_chunk_bytes(s[0]) + spec_chunks_bytes(s.drop_first())) + spec_chunk_bytes(m));
        assert(spec_chunks_bytes(s.push(m)) =~= spec_chunks_bytes(s) + spec_chunk_bytes(m));
    }
}

/// Law: a concatenation of serialized well-formed chunks with valid tags
/// parses back to the same chunks.
#[verifier::spinoff_prover]
#[verifier::rlimit(50)]
pub proof fn lemma_chunks_round_trip(s: Seq<ChunkModel>)
    requires
        all_chunks_wf(s),
    ensures
        spec_chunks_parse(spec_chunks_bytes(s)) == Ok::<Seq<ChunkModel>, FormatError>(s),
    decreases s.len(),
{
    if s.len() == 0 {
        assert(spec_chunks_bytes(s).len() == 0);
        assert(Seq::<ChunkModel>::empty() =~= s);
    } else {
        let m = s[0];
        let rest = s.drop_first();
        assert(chunk_wf(m) && tag_valid(m.tag));
        assert forall|i: int|
            0 <= i < rest.len() implies chunk_wf(#[trigger] rest[i]) && tag_valid(rest[i].tag) by {
            assert(rest[i] == s[i + 1]);
            assert(chunk_wf(s[i + 1]) && tag_valid(s[i + 1].tag));
        }
        assert(all_chunks_wf(rest));
        lemma_chunk_bytes_parse_prefix(m, spec_chunks_bytes(rest));
        lemma_chunks_round_trip(rest);
        let b = spec_chunks_bytes(s);
        assert(b == spec_chunk_bytes(m) + spec_chunks_bytes(rest));
        assert(spec_chunk_parse(b) == Ok::<ChunkModel, FormatError>(m));
        assert(b.len() == 12 + m.data.len() + spec_chunks_bytes(rest).len());
        assert(b.skip(12 + m.data.len() as int) == spec_chunks_bytes(rest));
        assert(spec_chunks_parse(b) == Ok::<Seq<ChunkModel>, FormatError>(seq![m] + rest));
        assert(seq![m] + rest =~= s);
    }
}

/// Law: every chunk of a successfully parsed chunk run is well formed
/// with a valid tag, and the run re-serializes to exactly the bytes it
/// was parsed from.
#[verifier::spinoff_prover]
#[verifier::rlimit(50)]
pub proof fn lemma_chunks_parse_exact(b: Seq<u8>)
    requires
        spec_chunks_parse(b) is Ok,
    ensures
        all_chunks_wf(spec_chunks_parse(b)->Ok_0),
        spec_chunks_bytes(spec_chunks_parse(b)->Ok_0) == b,
    decreases b.len(),
{
    let s = spec_chunks_parse(b)->Ok_0;
    if b.len() == 0 {
        assert(spec_chunks_bytes(s) =~= b);
    } else {
        let m = spec_chunk_parse(b)->Ok_0;
        let size = 12 + m.data.len() as int;
        crate::chunk::lemma_chunk_parse_exact(b);
        lemma_chunks_parse_exact(b.skip(size));
        let rest = spec_chunks_parse(b.skip(size))->Ok_0;
        assert(s == seq![m] + rest);
        assert(s[0] == m);
        assert(s.drop_first() =~= rest);
        assert(spec_chunks_bytes(s) == spec_chunk_bytes(m) + spec_chunks_bytes(s.drop_first()));
        assert(b.take(size) + b.skip(size) =~= b);
        assert(spec_chunks_bytes(s) =~= b);
        assert forall|i: int|
            0 <= i < s.len() implies chunk_wf(#[trigger] s[i]) && tag_valid(s[i].tag) by {
            if i == 0 {
                assert(s[0] == m);
            } else {
                assert(s[i] == rest[i - 1]);
                assert(chunk_wf(rest[i - 1]) && tag_valid(rest[i - 1].tag));
            }
        }
    }
}

/// Law (byte-identical re-emission): a buffer that parses as a container
/// serializes back to exactly the same bytes, and every chunk it yields
/// is well formed with a valid tag.
#[verifier::spinoff_prover]
#[verifier::rlimit(50)]
pub proof fn lemma_container_parse_exact(b: Seq<u8>)
    requires
        spec_container_parse(b) is Ok,
    ensures
        all_chunks_wf(spec_container_parse(b)->Ok_0),
        spec_container_bytes(spec_container_parse(b)->Ok_0) == b,
{
    lemma_chunks_parse_exact(b.skip(8));
    assert(spec_signature() + b.skip(8) =~= b);
}

/// Law (round trip): a container of well-formed chunks with valid tags,
/// serialized and parsed back, yields the same signature and the same
/// chunks in the same order.
pub proof fn lemma_container_round_trip(s: Seq<ChunkModel>)
    requires
        all_chunks_wf(s),
    ensures
        spec_container_parse(spec_container_bytes(s)) == Ok::<Seq<ChunkModel>, FormatError>(s),
{
    let b = spec_container_bytes(s);
    assert(b.subrange(0, 8) =~= spec_signature());
    assert(b.skip(8) =~= spec_chunks_bytes(s));
    lemma_chunks_round_trip(s);
}

} // verus!

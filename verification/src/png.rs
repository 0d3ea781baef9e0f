//! The container: a fixed eight-byte signature followed by an ordered
//! sequence of chunks. Supports parsing, lookup, append, removal by type, and
//! full re-serialization; insertion order is significant and preserved.

use crate::chunk::{
    lemma_parse_serialized_chunk, spec_parse_chunk, spec_serialize_chunk, wf_chunk_model, Chunk,
    ChunkError, ChunkModel,
};
use crate::chunk_type::{
    lemma_type_eq_is_view_eq, spec_parse_type_bytes, wf_type_bytes, ChunkType, ChunkTypeError,
};
use vstd::prelude::*;
use vstd::string::StringSliceAdditionalSpecFns;

verus! {

/// Why a container operation failed.
#[derive(Debug, Clone, Copy, PartialEq, Eq, Structural)]
pub enum PngError {
    /// The input does not begin with the fixed eight-byte signature.
    SignatureMismatch,
    /// A chunk could not be parsed, or a type tag argument was invalid.
    ChunkError(ChunkError),
    /// No chunk of the requested type is present; carries the requested tag.
    ChunkNotFound(ChunkType),
}

/// The fixed eight-byte signature that every serialized container begins
/// with.
pub open spec fn spec_signature() -> Seq<u8> {
    seq![0x89u8, 0x50u8, 0x4eu8, 0x47u8, 0x0du8, 0x0au8, 0x1au8, 0x0au8]
}

/// The signature as owned bytes.
pub fn signature() -> (r: [u8; 8])
    ensures
        r@ == spec_signature(),
{
    let r = [0x89u8, 0x50u8, 0x4eu8, 0x47u8, 0x0du8, 0x0au8, 0x1au8, 0x0au8];
    proof {
        assert(r@ =~= spec_signature());
    }
    r
}

/// What parsing a stream of consecutive chunks yields: each parse consumes
/// one frame, until the stream is exhausted; any failure is fatal.
pub open spec fn spec_parse_chunks(s: Seq<u8>) -> Result<Seq<ChunkModel>, ChunkError>
    decreases s.len(),
{
    if s.len() == 0 {
        Ok(Seq::<ChunkModel>::empty())
    } else {
        match spec_parse_chunk(s) {
            Err(e) => Err(e),
            Ok(m) => match spec_parse_chunks(s.skip(12 + m.data.len() as int)) {
                Err(e) => Err(e),
                Ok(ms) => Ok(seq![m] + ms),
            },
        }
    }
}

/// The concatenation of the serialized forms of the given chunks, in order.
pub open spec fn spec_serialize_chunks(models: Seq<ChunkModel>) -> Seq<u8>
    decreases models.len(),
{
    if models.len() == 0 {
        Seq::<u8>::empty()
    } else {
        spec_serialize_chunk(models[0]) + spec_serialize_chunks(models.drop_first())
    }
}

/// What parsing a whole container yields: the signature must match exactly,
/// and the remainder must parse as consecutive chunks.
pub open spec fn spec_parse_png(s: Seq<u8>) -> Result<Seq<ChunkModel>, PngError> {
    if s.len() < 8 || s.subrange(0, 8) != spec_signature() {
        Err(PngError::SignatureMismatch)
    } else {
        match spec_parse_chunks(s.skip(8)) {
            Ok(ms) => Ok(ms),
            Err(e) => Err(PngError::ChunkError(e)),
        }
    }
}

/// The serialized form of a container: the signature followed by each chunk's
/// serialized form, in order.
pub open spec fn spec_serialize_png(models: Seq<ChunkModel>) -> Seq<u8> {
    spec_signature() + spec_serialize_chunks(models)
}

/// Whether some chunk in `models` has the type tag `t`.
pub open spec fn contains_type(models: Seq<ChunkModel>, t: Seq<u8>) -> bool {
    exists|i: int| 0 <= i < models.len() && #[trigger] models[i].type_bytes == t
}

/// The position of the first chunk of type `t`, or `models.len()` when there
/// is none.
pub open spec fn first_index_of_type(models: Seq<ChunkModel>, t: Seq<u8>) -> int
    decreases models.len(),
{
    if models.len() == 0 {
        0
    } else if models[0].type_bytes == t {
        0
    } else {
        1 + first_index_of_type(models.drop_first(), t)
    }
}

/// `first_index_of_type` names the first match when one exists, and the
/// length of the sequence when none does.
pub proof fn lemma_first_index_of_type(models: Seq<ChunkModel>, t: Seq<u8>)
    ensures
        contains_type(models, t) ==> {
            let k = first_index_of_type(models, t);
            &&& 0 <= k < models.len()
            &&& models[k].type_bytes == t
            &&& forall|j: int| 0 <= j < k ==> #[trigger] models[j].type_bytes != t
        },
        !contains_type(models, t) ==> first_index_of_type(models, t) == models.len(),
    decreases models.len(),
{
    if models.len() == 0 {
    } else if models[0].type_bytes == t {
    } else {
        let rest = models.drop_first();
        lemma_first_index_of_type(rest, t);
        assert(forall|j: int| 0 <= j < rest.len() ==> #[trigger] rest[j] == models[j + 1]);
        if contains_type(models, t) {
            let i = choose|i: int| 0 <= i < models.len() && #[trigger] models[i].type_bytes == t;
            assert(rest[i - 1].type_bytes == t);
            assert(contains_type(rest, t));
            let k = first_index_of_type(models, t);
            let kr = first_index_of_type(rest, t);
            assert(k == 1 + kr);
            assert(models[k] == rest[kr]);
            assert forall|j: int| 0 <= j < k implies #[trigger] models[j].type_bytes != t by {
                if j > 0 {
                    assert(models[j] == rest[j - 1]);
                }
            }
        } else {
            assert(!contains_type(rest, t)) by {
                if contains_type(rest, t) {
                    let i = choose|i: int|
                        0 <= i < rest.len() && #[trigger] rest[i].type_bytes == t;
                    assert(models[i + 1].type_bytes == t);
                }
            }
        }
    }
}

/// Relates an executable container parse result to the specification-level
/// one: the same error, or a container whose view is the parsed sequence.
pub open spec fn png_parses_to(
    r: Result<Png, PngError>,
    m: Result<Seq<ChunkModel>, PngError>,
) -> bool {
    match r {
        Ok(p) => m == Ok::<Seq<ChunkModel>, PngError>(p@),
        Err(e) => m == Err::<Seq<ChunkModel>, PngError>(e),
    }
}

/// An ordered sequence of chunks preceded by the fixed signature. Its view is
/// the sequence of its chunks' models, in container order.
#[derive(Debug)]
pub struct Png {
    chunks: Vec<Chunk>,
}

impl View for Png {
    type V = Seq<ChunkModel>;

    closed spec fn view(&self) -> Seq<ChunkModel> {
        self.chunks@.map_values(|c: Chunk| c@)
    }
}

impl Png {
    #[verifier::type_invariant]
    spec fn inv(self) -> bool {
        forall|i: int| 0 <= i < self@.len() ==> wf_chunk_model(#[trigger] self@[i])
    }

    /// A fresh container holding no chunks; its serialized form is the bare
    /// signature.
    pub fn new() -> (r: Png)
        ensures
            r@ == Seq::<ChunkModel>::empty(),
    {
        let r = Png { chunks: Vec::new() };
        proof {
            assert(r@ =~= Seq::<ChunkModel>::empty());
        }
        r
    }

    /// Appends a chunk at the end of the ordered list; never fails.
    pub fn append_chunk(&mut self, chunk: Chunk)
        ensures
            final(self)@ == old(self)@.push(chunk@),
    {
        proof {
            use_type_invariant(&*self);
            use_type_invariant(&chunk);
        }
        let mut chunks: Vec<Chunk> = Vec::new();
        std::mem::swap(&mut chunks, &mut self.chunks);
        chunks.push(chunk);
        proof {
            let newv = chunks@.map_values(|c: Chunk| c@);
            assert(newv =~= old(self)@.push(chunk@));
            assert forall|i: int| 0 <= i < newv.len() implies wf_chunk_model(
                #[trigger] newv[i],
            ) by {
                if i < old(self)@.len() {
                    assert(newv[i] == old(self)@[i]);
                } else {
                    assert(newv[i] == chunk@);
                }
            }
        }
        self.chunks = chunks;
    }

    /// A read-only view of the chunks, in container order.
    pub fn chunks(&self) -> (r: &Vec<Chunk>)
        ensures
            r@.len() == self@.len(),
            forall|i: int| 0 <= i < r@.len() ==> #[trigger] r@[i]@ == self@[i],
    {
        &self.chunks
    }

    /// The first chunk whose type tag equals `chunk_type`, without mutating
    /// the container. A string that is not a valid tag finds nothing, which
    /// is indistinguishable here from absence.
    pub fn chunk_by_type(&self, chunk_type: &str) -> (r: Option<&Chunk>)
        ensures
            ({
                let bs = chunk_type.spec_bytes();
                &&& (r is Some <==> bs.len() == 4 && wf_type_bytes(bs) && contains_type(
                    self@,
                    bs,
                ))
                &&& (r matches Some(c) ==> contains_type(self@, bs) && c@ == self@.index(
                    first_index_of_type(self@, bs),
                ))
            }),
    {
        let ghost bs = chunk_type.spec_bytes();
        let target = match ChunkType::from_str(chunk_type) {
            Ok(ct) => ct,
            Err(e) => {
                proof {
                    assert(!(bs.len() == 4 && wf_type_bytes(bs)));
                }
                return None;
            },
        };
        let n = self.chunks.len();
        let mut i: usize = 0;
        while i < n
            invariant
                n == self@.len(),
                i <= n,
                bs == chunk_type.spec_bytes(),
                target@ == bs,
                wf_type_bytes(bs),
                forall|j: int| 0 <= j < i ==> #[trigger] self@[j].type_bytes != bs,
            decreases n - i,
        {
            let c = &self.chunks[i];
            let ct = c.chunk_type();
            let found = *ct == target;
            proof {
                lemma_type_eq_is_view_eq(*ct, target);
                assert(self@[i as int] == c@);
            }
            if found {
                proof {
                    assert(c@.type_bytes == bs);
                    assert(self@[i as int].type_bytes == bs);
                    assert(contains_type(self@, bs));
                    lemma_first_index_of_type(self@, bs);
                    let k = first_index_of_type(self@, bs);
                    assert(k == i) by {
                        if k < i {
                            assert(self@[k].type_bytes != bs);
                        }
                        if k > i {
                            assert(self@[i as int].type_bytes != bs);
                        }
                    }
                    assert(c@ == self@[k]);
                }
                return Some(c);
            }
            i += 1;
        }
        proof {
            if contains_type(self@, bs) {
                let j = choose|j: int|
                    0 <= j < self@.len() && #[trigger] self@[j].type_bytes == bs;
                assert(self@[j].type_bytes != bs);
            }
        }
        None
    }

    /// Parses `chunk_type` as a tag (propagating its validation error),
    /// removes the first chunk of that type from the ordered list and returns
    /// it; later chunks keep their relative order. Fails with `ChunkNotFound`
    /// when no chunk matches, leaving the container unchanged.
    pub fn remove_chunk(&mut self, chunk_type: &str) -> (r: Result<Chunk, PngError>)
        ensures
            ({
                let bs = chunk_type.spec_bytes();
                match r {
                    Ok(c) => {
                        &&& wf_type_bytes(bs)
                        &&& contains_type(old(self)@, bs)
                        &&& c@ == old(self)@[first_index_of_type(old(self)@, bs)]
                        &&& final(self)@ == old(self)@.remove(
                            first_index_of_type(old(self)@, bs),
                        )
                    },
                    Err(e) => final(self)@ == old(self)@ && match e {
                        PngError::ChunkError(ce) => {
                            &&& ce matches ChunkError::ChunkTypeError(te)
                            &&& if bs.len() != 4 {
                                te == ChunkTypeError::InvalidLength
                            } else {
                                Err::<Seq<u8>, ChunkTypeError>(te) == spec_parse_type_bytes(bs)
                                    && !wf_type_bytes(bs)
                            }
                        },
                        PngError::ChunkNotFound(ct) => ct@ == bs && wf_type_bytes(bs)
                            && !contains_type(old(self)@, bs),
                        PngError::SignatureMismatch => false,
                    },
                }
            }),
    {
        proof {
            use_type_invariant(&*self);
        }
        let ghost bs = chunk_type.spec_bytes();
        let target = match ChunkType::from_str(chunk_type) {
            Ok(ct) => ct,
            Err(e) => {
                return Err(PngError::ChunkError(ChunkError::ChunkTypeError(e)));
            },
        };
        let n = self.chunks.len();
        let mut i: usize = 0;
        while i < n
            invariant
                *self == *old(self),
                n == self@.len(),
                i <= n,
                bs == chunk_type.spec_bytes(),
                target@ == bs,
                wf_type_bytes(bs),
                forall|j: int| 0 <= j < i ==> #[trigger] self@[j].type_bytes != bs,
                forall|j: int| 0 <= j < self@.len() ==> wf_chunk_model(#[trigger] self@[j]),
            decreases n - i,
        {
            let ct = self.chunks[i].chunk_type();
            let found = *ct == target;
            proof {
                lemma_type_eq_is_view_eq(*ct, target);
                assert(self@[i as int] == self.chunks@[i as int]@);
            }
            if found {
                proof {
                    assert(self@[i as int].type_bytes == bs);
                    assert(contains_type(self@, bs));
                    lemma_first_index_of_type(self@, bs);
                    let k = first_index_of_type(self@, bs);
                    assert(k == i) by {
                        if k < i {
                            assert(self@[k].type_bytes != bs);
                        }
                        if k > i {
                            assert(self@[i as int].type_bytes != bs);
                        }
                    }
                }
                let mut chunks: Vec<Chunk> = Vec::new();
                std::mem::swap(&mut chunks, &mut self.chunks);
                let ghost before = chunks@;
                let removed = chunks.remove(i);
                proof {
                    assert(before.map_values(|c: Chunk| c@) =~= old(self)@);
                    assert(removed@ == old(self)@[i as int]);
                    let newv = chunks@.map_values(|c: Chunk| c@);
                    let target_seq = old(self)@.remove(i as int);
                    assert forall|j: int| 0 <= j < newv.len() implies newv[j] == target_seq[j] by {
                        if j < i {
                            assert(chunks@[j] == before[j]);
                        } else {
                            assert(chunks@[j] == before[j + 1]);
                        }
                    }
                    assert(newv =~= target_seq);
                    assert forall|j: int| 0 <= j < newv.len() implies wf_chunk_model(
                        #[trigger] newv[j],
                    ) by {
                        if j < i {
                            assert(newv[j] == old(self)@[j]);
                        } else {
                            assert(newv[j] == old(self)@[j + 1]);
                        }
                    }
                }
                self.chunks = chunks;
                return Ok(removed);
            }
            i += 1;
        }
        proof {
            if contains_type(self@, bs) {
                let j = choose|j: int|
                    0 <= j < self@.len() && #[trigger] self@[j].type_bytes == bs;
                assert(self@[j].type_bytes != bs);
            }
        }
        Err(PngError::ChunkNotFound(target))
    }

    /// Serializes the container: the signature followed by each chunk's
    /// serialized form, in container order. The exact inverse of parsing.
    pub fn as_bytes(&self) -> (r: Vec<u8>)
        ensures
            r@ == spec_serialize_png(self@),
            forall|i: int| 0 <= i < self@.len() ==> wf_chunk_model(#[trigger] self@[i]),
    {
        proof {
            use_type_invariant(self);
        }
        let mut out: Vec<u8> = Vec::new();
        let sig = signature();
        let mut k: usize = 0;
        while k < 8
            invariant
                k <= 8,
                sig@ == spec_signature(),
                out@ == spec_signature().take(k as int),
            decreases 8 - k,
        {
            out.push(sig[k]);
            proof {
                assert(out@ =~= spec_signature().take(k + 1));
            }
            k += 1;
        }
        proof {
            assert(out@ =~= spec_signature() + spec_serialize_chunks(self@.take(0)));
        }
        let n = self.chunks.len();
        let mut i: usize = 0;
        while i < n
            invariant
                n == self@.len(),
                i <= n,
                out@ == spec_signature() + spec_serialize_chunks(self@.take(i as int)),
            decreases n - i,
        {
            let mut cb = self.chunks[i].as_bytes();
            proof {
                assert(self@[i as int] == self.chunks@[i as int]@);
            }
            out.append(&mut cb);
            proof {
                lemma_serialize_chunks_snoc(self@, i as int);
                assert(out@ =~= spec_signature() + spec_serialize_chunks(self@.take(i + 1)));
            }
            i += 1;
        }
        proof {
            assert(self@.take(n as int) =~= self@);
        }
        out
    }

    /// Parses a container: the input must begin with the exact signature, and
    /// the remainder is parsed as consecutive chunks until it is exhausted.
    /// Any chunk failure is fatal for the whole parse.
    pub fn try_from(value: &[u8]) -> (r: Result<Png, PngError>)
        ensures
            png_parses_to(r, spec_parse_png(value@)),
    {
        let vlen = value.len();
        if vlen < 8 {
            return Err(PngError::SignatureMismatch);
        }
        let sig = signature();
        let mut k: usize = 0;
        while k < 8
            invariant
                k <= 8,
                8 <= vlen == value@.len(),
                sig@ == spec_signature(),
                forall|j: int| 0 <= j < k ==> value@[j] == spec_signature()[j],
            decreases 8 - k,
        {
            if value[k] != sig[k] {
                proof {
                    assert(value@.subrange(0, 8)[k as int] != spec_signature()[k as int]);
                }
                return Err(PngError::SignatureMismatch);
            }
            k += 1;
        }
        proof {
            assert(value@.subrange(0, 8) =~= spec_signature());
        }
        let mut chunks: Vec<Chunk> = Vec::new();
        let mut offset: usize = 8;
        while offset < vlen
            invariant
                8 <= offset <= vlen == value@.len(),
                value@.subrange(0, 8) == spec_signature(),
                forall|i: int|
                    0 <= i < chunks@.len() ==> wf_chunk_model(#[trigger] chunks@[i]@),
                ({
                    let full = spec_parse_chunks(value@.skip(8));
                    match spec_parse_chunks(value@.skip(offset as int)) {
                        Ok(ms) => full == Ok::<Seq<ChunkModel>, ChunkError>(
                            chunks@.map_values(|c: Chunk| c@) + ms,
                        ),
                        Err(e) => full == Err::<Seq<ChunkModel>, ChunkError>(e),
                    }
                }),
            decreases vlen - offset,
        {
            let rem = &value[offset..vlen];
            proof {
                assert(rem@ =~= value@.skip(offset as int));
            }
            match Chunk::try_from(rem) {
                Err(e) => {
                    proof {
                        assert(value@.skip(offset as int).len() > 0);
                        assert(spec_parse_chunks(value@.skip(offset as int))
                            == Err::<Seq<ChunkModel>, ChunkError>(e));
                    }
                    return Err(PngError::ChunkError(e));
                },
                Ok(c) => {
                    proof {
                        assert(spec_parse_chunk(rem@) == Ok::<ChunkModel, ChunkError>(c@));
                        assert(rem@.len() >= 12 + c@.data.len());
                    }
                    let adv = 12 + (c.length() as usize);
                    let ghost prev = chunks@.map_values(|ch: Chunk| ch@);
                    let ghost old_offset = offset as int;
                    chunks.push(c);
                    offset = offset + adv;
                    proof {
                        assert(value@.skip(old_offset).skip(12 + c@.data.len() as int)
                            =~= value@.skip(offset as int));
                        assert(chunks@.map_values(|ch: Chunk| ch@) =~= prev.push(c@));
                        let full = spec_parse_chunks(value@.skip(8));
                        let tail = spec_parse_chunks(value@.skip(offset as int));
                        if tail is Ok {
                            let ms2 = tail->Ok_0;
                            assert(spec_parse_chunks(value@.skip(old_offset))
                                == Ok::<Seq<ChunkModel>, ChunkError>(seq![c@] + ms2));
                            assert(prev.push(c@) + ms2 =~= prev + (seq![c@] + ms2));
                        } else {
                            assert(spec_parse_chunks(value@.skip(old_offset)) == tail);
                        }
                    }
                },
            }
        }
        proof {
            assert(value@.skip(offset as int) =~= Seq::<u8>::empty());
            assert(chunks@.map_values(|c: Chunk| c@) + Seq::<ChunkModel>::empty()
                =~= chunks@.map_values(|c: Chunk| c@));
        }
        let p = Png { chunks };
        Ok(p)
    }
}

/// Appending one chunk's serialization extends the serialized stream at the
/// end.
pub proof fn lemma_serialize_chunks_snoc(models: Seq<ChunkModel>, i: int)
    requires
        0 <= i < models.len(),
    ensures
        spec_serialize_chunks(models.take(i + 1)) == spec_serialize_chunks(models.take(i))
            + spec_serialize_chunk(models[i]),
    decreases i,
{
    if i == 0 {
        assert(models.take(1).drop_first() =~= Seq::<ChunkModel>::empty());
        assert(models.take(0) =~= Seq::<ChunkModel>::empty());
        assert(spec_serialize_chunks(models.take(1)) =~= spec_serialize_chunk(models[0])
            + spec_serialize_chunks(models.take(0)));
        assert(spec_serialize_chunk(models[0]) + Seq::<u8>::empty() =~= spec_serialize_chunk(
            models[0],
        ));
    } else {
        let rest = models.drop_first();
        lemma_serialize_chunks_snoc(rest, i - 1);
        assert(models.take(i + 1).drop_first() =~= rest.take(i));
        assert(models.take(i).drop_first() =~= rest.take(i - 1));
        assert(models.take(i + 1)[0] == models[0]);
        assert(models.take(i)[0] == models[0]);
        assert(rest[i - 1] == models[i]);
        assert(spec_serialize_chunk(models[0]) + (spec_serialize_chunks(rest.take(i - 1))
            + spec_serialize_chunk(models[i])) =~= (spec_serialize_chunk(models[0])
            + spec_serialize_chunks(rest.take(i - 1))) + spec_serialize_chunk(models[i]));
    }
}

/// Parsing the concatenated serializations of a sequence of valid chunks
/// yields exactly that sequence.
#[verifier::rlimit(50)]
pub proof fn lemma_parse_serialized_chunks(models: Seq<ChunkModel>)
    requires
        forall|i: int| 0 <= i < models.len() ==> wf_chunk_model(#[trigger] models[i]),
    ensures
        spec_parse_chunks(spec_serialize_chunks(models)) == Ok::<Seq<ChunkModel>, ChunkError>(
            models,
        ),
    decreases models.len(),
{
    if models.len() == 0 {
        assert(models =~= Seq::<ChunkModel>::empty());
        assert(spec_serialize_chunks(models).len() == 0);
    } else {
        let m = models[0];
        let rest = spec_serialize_chunks(models.drop_first());
        lemma_parse_serialized_chunk(m, rest);
        let s = spec_serialize_chunks(models);
        assert(s == spec_serialize_chunk(m) + rest);
        assert(s.len() >= 12);
        assert(spec_parse_chunk(s) == Ok::<ChunkModel, ChunkError>(m));
        assert(s.skip(12 + m.data.len() as int) =~= rest);
        assert forall|i: int| 0 <= i < models.drop_first().len() implies wf_chunk_model(
            #[trigger] models.drop_first()[i],
        ) by {
            assert(models.drop_first()[i] == models[i + 1]);
        }
        lemma_parse_serialized_chunks(models.drop_first());
        assert(spec_parse_chunks(s.skip(12 + m.data.len() as int))
            == Ok::<Seq<ChunkModel>, ChunkError>(models.drop_first()));
        assert(spec_parse_chunks(s) == Ok::<Seq<ChunkModel>, ChunkError>(
            seq![m] + models.drop_first(),
        ));
        assert(seq![m] + models.drop_first() =~= models);
    }
}

/// Round trip: parsing a valid container's serialized bytes yields a
/// container with the same chunk sequence.
pub proof fn lemma_png_round_trip(models: Seq<ChunkModel>)
    requires
        forall|i: int| 0 <= i < models.len() ==> wf_chunk_model(#[trigger] models[i]),
    ensures
        spec_parse_png(spec_serialize_png(models)) == Ok::<Seq<ChunkModel>, PngError>(models),
{
    let s = spec_serialize_png(models);
    assert(s.subrange(0, 8) =~= spec_signature());
    assert(s.skip(8) =~= spec_serialize_chunks(models));
    lemma_parse_serialized_chunks(models);
}

} // verus!

//! A single framed record of the container format: a big-endian payload
//! length, a four-letter type tag, the payload, and a CRC-32 trailer computed
//! over tag and payload. A `Chunk` can only exist in a valid state: parsing
//! verifies the stored checksum, and fresh construction computes it.

use crate::byte_order::{
    lemma_u32_from_be_bytes_injective, lemma_u32_to_from_be_bytes, push_u32_be_bytes,
    spec_u32_from_be_bytes, spec_u32_to_be_bytes, u32_from_be_bytes,
};
use crate::checksum::{crc32, crc32_of};
use crate::chunk_type::{first_non_letter, wf_type_bytes, ChunkType, ChunkTypeError};
use crate::text::utf8_to_string;
use vstd::prelude::*;
use vstd::utf8::{decode_utf8, valid_utf8};

verus! {

/// Why a chunk could not be parsed or its payload not decoded.
#[derive(Debug, Clone, Copy, PartialEq, Eq, Structural)]
pub enum ChunkError {
    /// The type tag bytes are invalid.
    ChunkTypeError(ChunkTypeError),
    /// The recomputed checksum (first) disagrees with the stored one (second).
    InvalidCRC(u32, u32),
    /// The payload is not valid UTF-8 text.
    Utf8Error,
    /// Fewer than the twelve framing bytes were supplied.
    InputTooSmall,
    /// The declared payload length exceeds the bytes that remain.
    TruncatedPayload,
}

/// The mathematical content of a chunk: its type tag bytes and its payload.
/// Length and checksum are functions of these.
#[verifier::ext_equal]
pub ghost struct ChunkModel {
    pub type_bytes: Seq<u8>,
    pub data: Seq<u8>,
}

/// A chunk model that a `Chunk` can hold: a well-formed tag and a payload
/// whose length fits the 32-bit length field.
pub open spec fn wf_chunk_model(m: ChunkModel) -> bool {
    &&& wf_type_bytes(m.type_bytes)
    &&& m.data.len() <= u32::MAX
}

/// The serialized form of a chunk: length, tag, payload, checksum, with the
/// two integers big-endian.
pub open spec fn spec_serialize_chunk(m: ChunkModel) -> Seq<u8> {
    spec_u32_to_be_bytes(m.data.len() as u32) + m.type_bytes + m.data + spec_u32_to_be_bytes(
        crc32_of(m.type_bytes + m.data),
    )
}

/// What parsing a chunk from the front of `s` yields. A successful parse
/// consumes exactly `12 + data.len()` bytes and ignores what follows.
pub open spec fn spec_parse_chunk(s: Seq<u8>) -> Result<ChunkModel, ChunkError> {
    if s.len() < 12 {
        Err(ChunkError::InputTooSmall)
    } else {
        let len = spec_u32_from_be_bytes(s.subrange(0, 4)) as int;
        let t = s.subrange(4, 8);
        if !wf_type_bytes(t) {
            Err(ChunkError::ChunkTypeError(ChunkTypeError::InvalidByte(t[first_non_letter(t)])))
        } else if s.len() < 12 + len {
            Err(ChunkError::TruncatedPayload)
        } else {
            let data = s.subrange(8, 8 + len);
            let stored = spec_u32_from_be_bytes(s.subrange(8 + len, 12 + len));
            let computed = crc32_of(t + data);
            if computed != stored {
                Err(ChunkError::InvalidCRC(computed, stored))
            } else {
                Ok(ChunkModel { type_bytes: t, data })
            }
        }
    }
}

/// Relates an executable parse result to the specification-level one: the
/// same error, or a chunk whose view is the parsed model.
pub open spec fn parses_to(r: Result<Chunk, ChunkError>, m: Result<ChunkModel, ChunkError>) -> bool {
    match r {
        Ok(c) => m == Ok::<ChunkModel, ChunkError>(c@),
        Err(e) => m == Err::<ChunkModel, ChunkError>(e),
    }
}

/// One framed, type-tagged, checksummed record. Its view is a `ChunkModel`;
/// the stored length always equals the payload length and the stored checksum
/// always equals the recomputed one.
#[derive(Debug)]
pub struct Chunk {
    pub(crate) length: u32,
    pub(crate) chunk_type: ChunkType,
    pub(crate) data: Vec<u8>,
    pub(crate) crc: u32,
}

impl View for Chunk {
    type V = ChunkModel;

    closed spec fn view(&self) -> ChunkModel {
        ChunkModel { type_bytes: self.chunk_type@, data: self.data@ }
    }
}

impl Chunk {
    /// The stored length and checksum always agree with the payload and tag,
    /// which are themselves well formed.
    #[verifier::type_invariant]
    pub(crate) open spec fn inv(self) -> bool {
        &&& self.length as int == self@.data.len()
        &&& self.crc == crc32_of(self@.type_bytes + self@.data)
        &&& wf_chunk_model(self@)
    }

    /// Builds a chunk from a tag and a payload, computing the checksum over
    /// tag and payload.
    pub fn new(chunk_type: ChunkType, data: Vec<u8>) -> (r: Chunk)
        requires
            data@.len() <= u32::MAX,
        ensures
            r@ == (ChunkModel { type_bytes: chunk_type@, data: data@ }),
            wf_chunk_model(r@),
    {
        proof {
            use_type_invariant(&chunk_type);
        }
        let tb = chunk_type.bytes();
        let mut bytes_for_crc: Vec<u8> = Vec::new();
        bytes_for_crc.push(tb[0]);
        bytes_for_crc.push(tb[1]);
        bytes_for_crc.push(tb[2]);
        bytes_for_crc.push(tb[3]);
        proof {
            assert(bytes_for_crc@ =~= chunk_type@ + data@.take(0));
        }
        let mut i: usize = 0;
        while i < data.len()
            invariant
                i <= data.len(),
                bytes_for_crc@ == chunk_type@ + data@.take(i as int),
            decreases data.len() - i,
        {
            bytes_for_crc.push(data[i]);
            proof {
                assert(bytes_for_crc@ =~= chunk_type@ + data@.take(i + 1));
            }
            i += 1;
        }
        proof {
            assert(bytes_for_crc@ =~= chunk_type@ + data@);
        }
        let crc = crc32(&bytes_for_crc);
        let length = data.len() as u32;
        let r = Chunk { length, chunk_type, data, crc };
        proof {
            assert(r@ =~= (ChunkModel { type_bytes: chunk_type@, data: r.data@ }));
        }
        r
    }

    /// The payload length in bytes, as stored in the length field.
    pub fn length(&self) -> (r: u32)
        ensures
            r as int == self@.data.len(),
    {
        proof {
            use_type_invariant(self);
        }
        self.length
    }

    /// The stored checksum, always equal to the CRC-32 of tag and payload.
    pub fn crc(&self) -> (r: u32)
        ensures
            r == crc32_of(self@.type_bytes + self@.data),
    {
        proof {
            use_type_invariant(self);
        }
        self.crc
    }

    /// The chunk's type tag.
    pub fn chunk_type(&self) -> (r: &ChunkType)
        ensures
            r@ == self@.type_bytes,
    {
        &self.chunk_type
    }

    /// A borrowed view of the payload bytes.
    pub fn data(&self) -> (r: &[u8])
        ensures
            r@ == self@.data,
    {
        self.data.as_slice()
    }

    /// Decodes the payload as UTF-8 text; fails exactly when the payload is
    /// not valid UTF-8.
    pub fn data_as_string(&self) -> (r: Result<String, ChunkError>)
        ensures
            match r {
                Ok(s) => valid_utf8(self@.data) && s@ == decode_utf8(self@.data),
                Err(e) => e == ChunkError::Utf8Error && !valid_utf8(self@.data),
            },
    {
        match utf8_to_string(&self.data) {
            Some(s) => Ok(s),
            None => Err(ChunkError::Utf8Error),
        }
    }

    /// Serializes the chunk in its four-part big-endian layout; the exact
    /// inverse of parsing.
    pub fn as_bytes(&self) -> (r: Vec<u8>)
        ensures
            r@ == spec_serialize_chunk(self@),
            wf_chunk_model(self@),
    {
        proof {
            use_type_invariant(self);
        }
        let mut out: Vec<u8> = Vec::new();
        push_u32_be_bytes(&mut out, self.length);
        let tb = self.chunk_type.bytes();
        out.push(tb[0]);
        out.push(tb[1]);
        out.push(tb[2]);
        out.push(tb[3]);
        proof {
            assert(out@ =~= spec_u32_to_be_bytes(self.length) + self@.type_bytes + self@.data.take(
                0,
            ));
        }
        let mut i: usize = 0;
        while i < self.data.len()
            invariant
                i <= self.data.len(),
                out@ == spec_u32_to_be_bytes(self.length) + self@.type_bytes + self@.data.take(
                    i as int,
                ),
            decreases self.data.len() - i,
        {
            out.push(self.data[i]);
            proof {
                assert(out@ =~= spec_u32_to_be_bytes(self.length) + self@.type_bytes
                    + self@.data.take(i + 1));
            }
            i += 1;
        }
        push_u32_be_bytes(&mut out, self.crc);
        proof {
            assert(self.length == self@.data.len() as u32);
            assert(out@ =~= spec_serialize_chunk(self@));
        }
        out
    }

    /// Parses a chunk from the front of `value`, verifying the stored
    /// checksum; bytes beyond the frame are ignored. Any input shorter than
    /// the twelve framing bytes is rejected with `InputTooSmall`.
    pub fn try_from(value: &[u8]) -> (r: Result<Chunk, ChunkError>)
        ensures
            parses_to(r, spec_parse_chunk(value@)),
            r matches Ok(c) ==> wf_chunk_model(c@),
    {
        if value.len() < 12 {
            return Err(ChunkError::InputTooSmall);
        }
        let length = u32_from_be_bytes(value[0], value[1], value[2], value[3]);
        proof {
            assert(seq![value@[0], value@[1], value@[2], value@[3]] =~= value@.subrange(0, 4));
        }
        let type_arr = [value[4], value[5], value[6], value[7]];
        proof {
            assert(type_arr@ =~= value@.subrange(4, 8));
        }
        let chunk_type = match ChunkType::try_from(type_arr) {
            Ok(ct) => ct,
            Err(e) => {
                return Err(ChunkError::ChunkTypeError(e));
            },
        };
        let len_us = length as usize;
        let vlen = value.len();
        if vlen - 12 < len_us {
            return Err(ChunkError::TruncatedPayload);
        }
        proof {
            assert(12 + len_us <= vlen);
        }
        let ghost len = length as int;
        let mut data: Vec<u8> = Vec::new();
        let mut bytes_for_crc: Vec<u8> = Vec::new();
        bytes_for_crc.push(value[4]);
        bytes_for_crc.push(value[5]);
        bytes_for_crc.push(value[6]);
        bytes_for_crc.push(value[7]);
        proof {
            assert(bytes_for_crc@ =~= value@.subrange(4, 8) + value@.subrange(8, 8));
            assert(data@ =~= value@.subrange(8, 8));
        }
        let mut i: usize = 0;
        while i < len_us
            invariant
                i <= len_us,
                vlen == value@.len(),
                12 + len_us <= vlen,
                data@ == value@.subrange(8, 8 + i as int),
                bytes_for_crc@ == value@.subrange(4, 8) + value@.subrange(8, 8 + i as int),
            decreases len_us - i,
        {
            let b = value[8 + i];
            data.push(b);
            bytes_for_crc.push(b);
            proof {
                assert(data@ =~= value@.subrange(8, 8 + (i + 1)));
                assert(bytes_for_crc@ =~= value@.subrange(4, 8) + value@.subrange(8, 8 + (i + 1)));
            }
            i += 1;
        }
        let stored = u32_from_be_bytes(
            value[8 + len_us],
            value[9 + len_us],
            value[10 + len_us],
            value[11 + len_us],
        );
        proof {
            assert(seq![
                value@[8 + len],
                value@[9 + len],
                value@[10 + len],
                value@[11 + len],
            ] =~= value@.subrange(8 + len, 12 + len));
        }
        let computed = crc32(&bytes_for_crc);
        if computed != stored {
            return Err(ChunkError::InvalidCRC(computed, stored));
        }
        let c = Chunk { length, chunk_type, data, crc: stored };
        proof {
            assert(c@ =~= spec_parse_chunk(value@)->Ok_0);
        }
        Ok(c)
    }
}

/// Minimum-size rejection: any input shorter than the twelve framing bytes
/// fails chunk parsing with the too-small error.
pub proof fn lemma_short_input_rejected(s: Seq<u8>)
    requires
        s.len() < 12,
    ensures
        spec_parse_chunk(s) == Err::<ChunkModel, ChunkError>(ChunkError::InputTooSmall),
{
}

/// The serialized form of a chunk is its payload length plus the twelve
/// framing bytes, and parsing it back — with any trailing bytes after the
/// frame — recovers exactly the chunk that was serialized.
pub proof fn lemma_parse_serialized_chunk(m: ChunkModel, rest: Seq<u8>)
    requires
        wf_chunk_model(m),
    ensures
        spec_serialize_chunk(m).len() == 12 + m.data.len(),
        spec_parse_chunk(spec_serialize_chunk(m) + rest) == Ok::<ChunkModel, ChunkError>(m),
{
    let len32 = m.data.len() as u32;
    let crc = crc32_of(m.type_bytes + m.data);
    let s = spec_serialize_chunk(m) + rest;
    let n = m.data.len() as int;
    lemma_u32_to_from_be_bytes(len32);
    lemma_u32_to_from_be_bytes(crc);
    assert(s.subrange(0, 4) =~= spec_u32_to_be_bytes(len32));
    assert(spec_u32_from_be_bytes(s.subrange(0, 4)) == len32);
    assert(s.subrange(4, 8) =~= m.type_bytes);
    assert(s.subrange(8, 8 + n) =~= m.data);
    assert(s.subrange(8 + n, 12 + n) =~= spec_u32_to_be_bytes(crc));
    assert(spec_u32_from_be_bytes(s.subrange(8 + n, 12 + n)) == crc);
    assert(spec_parse_chunk(s)->Ok_0 =~= m);
}

/// Round trip: parsing a valid chunk's serialized bytes yields that chunk
/// again — the same length, type, payload and checksum.
pub proof fn lemma_chunk_round_trip(m: ChunkModel)
    requires
        wf_chunk_model(m),
    ensures
        spec_parse_chunk(spec_serialize_chunk(m)) == Ok::<ChunkModel, ChunkError>(m),
{
    lemma_parse_serialized_chunk(m, Seq::<u8>::empty());
    assert(spec_serialize_chunk(m) + Seq::<u8>::empty() =~= spec_serialize_chunk(m));
}

/// Checksum sensitivity: flipping any set of bits (`mask`) in any byte of a
/// chunk's stored CRC trailer makes parsing fail with a checksum mismatch
/// that reports the unchanged recomputed value and the corrupted stored one.
pub proof fn lemma_crc_corruption_detected(m: ChunkModel, i: int, mask: u8)
    requires
        wf_chunk_model(m),
        mask != 0,
        8 + m.data.len() <= i < 12 + m.data.len(),
    ensures
        ({
            let s2 = spec_serialize_chunk(m).update(i, spec_serialize_chunk(m)[i] ^ mask);
            let stored = spec_u32_from_be_bytes(
                s2.subrange(8 + m.data.len() as int, 12 + m.data.len() as int),
            );
            &&& stored != crc32_of(m.type_bytes + m.data)
            &&& spec_parse_chunk(s2) == Err::<ChunkModel, ChunkError>(
                ChunkError::InvalidCRC(crc32_of(m.type_bytes + m.data), stored),
            )
        }),
{
    let len32 = m.data.len() as u32;
    let crc = crc32_of(m.type_bytes + m.data);
    let s = spec_serialize_chunk(m);
    let n = m.data.len() as int;
    let b = s[i];
    let s2 = s.update(i, b ^ mask);
    assert(b ^ mask != b) by (bit_vector)
        requires
            mask != 0,
    ;
    lemma_u32_to_from_be_bytes(len32);
    lemma_u32_to_from_be_bytes(crc);
    assert(s.len() == 12 + n) by {
        lemma_parse_serialized_chunk(m, Seq::<u8>::empty());
    }
    assert(s2.subrange(0, 4) =~= spec_u32_to_be_bytes(len32));
    assert(spec_u32_from_be_bytes(s2.subrange(0, 4)) == len32);
    assert(s2.subrange(4, 8) =~= m.type_bytes);
    assert(s2.subrange(8, 8 + n) =~= m.data);
    let trailer = s.subrange(8 + n, 12 + n);
    let trailer2 = s2.subrange(8 + n, 12 + n);
    assert(trailer =~= spec_u32_to_be_bytes(crc));
    assert(trailer2[i - (8 + n)] == b ^ mask);
    assert(trailer2 != trailer) by {
        assert(trailer[i - (8 + n)] == b);
    }
    lemma_u32_from_be_bytes_injective(trailer2, trailer);
    assert(spec_u32_from_be_bytes(trailer) == crc);
}

} // verus!

//! The four-byte type tag of a chunk: every byte must be an ASCII letter,
//! and bit 5 of each byte encodes one boolean property of the chunk.

use crate::text::utf8_to_string;
use vstd::prelude::*;
use vstd::string::StringSliceAdditionalSpecFns;
use vstd::utf8::{encode_utf8_decode_utf8, encode_utf8_valid_utf8, is_ascii_chars,
    is_ascii_chars_encode_utf8};

verus! {

/// Why a type tag could not be constructed.
#[derive(Debug, Clone, Copy, PartialEq, Eq, Structural)]
pub enum ChunkTypeError {
    /// A tag byte is not an ASCII letter.
    InvalidByte(u8),
    /// A tag string is not exactly four bytes long.
    InvalidLength,
}

/// Whether `b` is an ASCII letter (A-Z or a-z).
pub open spec fn is_ascii_letter(b: u8) -> bool {
    (65 <= b <= 90) || (97 <= b <= 122)
}

/// Whether `s` is a well-formed tag: four bytes, all ASCII letters.
pub open spec fn wf_type_bytes(s: Seq<u8>) -> bool {
    &&& s.len() == 4
    &&& forall|i: int| 0 <= i < 4 ==> is_ascii_letter(#[trigger] s[i])
}

/// The position of the first byte of a four-byte tag that is not a letter
/// (meaningful only when some byte is not a letter).
pub open spec fn first_non_letter(s: Seq<u8>) -> int
    recommends
        s.len() == 4,
{
    if !is_ascii_letter(s[0]) {
        0
    } else if !is_ascii_letter(s[1]) {
        1
    } else if !is_ascii_letter(s[2]) {
        2
    } else {
        3
    }
}

/// What validating four tag bytes yields: the bytes themselves, or the first
/// byte that is not an ASCII letter.
pub open spec fn spec_parse_type_bytes(s: Seq<u8>) -> Result<Seq<u8>, ChunkTypeError>
    recommends
        s.len() == 4,
{
    if wf_type_bytes(s) {
        Ok(s)
    } else {
        Err(ChunkTypeError::InvalidByte(s[first_non_letter(s)]))
    }
}

/// Type validation: a four-byte tag containing an ASCII digit is rejected
/// with an invalid-byte error; when the bytes before the digit are letters,
/// the error cites that digit itself.
pub proof fn lemma_digit_rejected(s: Seq<u8>, i: int)
    requires
        s.len() == 4,
        0 <= i < 4,
        48 <= s[i] <= 57,
    ensures
        spec_parse_type_bytes(s) matches Err(ChunkTypeError::InvalidByte(b))
            && !is_ascii_letter(b),
        (forall|j: int| 0 <= j < i ==> is_ascii_letter(#[trigger] s[j]))
            ==> spec_parse_type_bytes(s) == Err::<Seq<u8>, ChunkTypeError>(
            ChunkTypeError::InvalidByte(s[i]),
        ),
{
}

/// Two tags are equal exactly when their byte views are equal.
pub proof fn lemma_type_eq_is_view_eq(a: ChunkType, b: ChunkType)
    ensures
        (a == b) <==> (a@ == b@),
{
    if a@ == b@ {
        assert(a.b0 == a@[0] && a.b1 == a@[1] && a.b2 == a@[2] && a.b3 == a@[3]);
        assert(b.b0 == b@[0] && b.b1 == b@[1] && b.b2 == b@[2] && b.b3 == b@[3]);
    }
}

/// A validated four-letter chunk type tag. Its view is the sequence of its
/// four bytes, which are always ASCII letters.
#[derive(Debug, Clone, Copy, PartialEq, Eq, Structural)]
pub struct ChunkType {
    b0: u8,
    b1: u8,
    b2: u8,
    b3: u8,
}

impl View for ChunkType {
    type V = Seq<u8>;

    closed spec fn view(&self) -> Seq<u8> {
        seq![self.b0, self.b1, self.b2, self.b3]
    }
}

impl ChunkType {
    /// Every constructed tag has four ASCII-letter bytes.
    #[verifier::type_invariant]
    pub open spec fn wf(self) -> bool {
        wf_type_bytes(self@)
    }

    /// Validates four raw bytes as a type tag; fails on the first byte that
    /// is not an ASCII letter, citing that byte.
    pub fn try_from(value: [u8; 4]) -> (r: Result<ChunkType, ChunkTypeError>)
        ensures
            match r {
                Ok(ct) => ct@ == value@ && wf_type_bytes(value@),
                Err(e) => Err::<Seq<u8>, ChunkTypeError>(e) == spec_parse_type_bytes(value@),
            },
    {
        let mut i: usize = 0;
        while i < 4
            invariant
                i <= 4,
                forall|j: int| 0 <= j < i ==> is_ascii_letter(#[trigger] value@[j]),
            decreases 4 - i,
        {
            let b = value[i];
            if !((65 <= b && b <= 90) || (97 <= b && b <= 122)) {
                return Err(ChunkTypeError::InvalidByte(b));
            }
            i += 1;
        }
        let ct = ChunkType { b0: value[0], b1: value[1], b2: value[2], b3: value[3] };
        proof {
            assert(ct@ =~= value@);
        }
        Ok(ct)
    }

    /// Validates a string as a type tag: it must be exactly four bytes long,
    /// and each byte must be an ASCII letter. Raw byte values are checked,
    /// not decoded code points.
    pub fn from_str(s: &str) -> (r: Result<ChunkType, ChunkTypeError>)
        ensures
            match r {
                Ok(ct) => s.spec_bytes().len() == 4 && ct@ == s.spec_bytes() && wf_type_bytes(
                    s.spec_bytes(),
                ),
                Err(e) => if s.spec_bytes().len() != 4 {
                    e == ChunkTypeError::InvalidLength
                } else {
                    Err::<Seq<u8>, ChunkTypeError>(e) == spec_parse_type_bytes(s.spec_bytes())
                },
            },
    {
        let sb = s.as_bytes();
        if sb.len() != 4 {
            return Err(ChunkTypeError::InvalidLength);
        }
        Self::try_from([sb[0], sb[1], sb[2], sb[3]])
    }

    /// The four tag bytes.
    pub fn bytes(&self) -> (r: [u8; 4])
        ensures
            r@ == self@,
    {
        let r = [self.b0, self.b1, self.b2, self.b3];
        proof {
            assert(r@ =~= self@);
        }
        r
    }

    /// Bit 5 of the first byte clear: the chunk is structurally significant.
    pub fn is_critical(&self) -> (r: bool)
        ensures
            r == (self@[0] & 32 == 0),
    {
        self.b0 & 32 == 0
    }

    /// Bit 5 of the second byte clear: the type is a standardized one.
    pub fn is_public(&self) -> (r: bool)
        ensures
            r == (self@[1] & 32 == 0),
    {
        self.b1 & 32 == 0
    }

    /// Bit 5 of the third byte clear: the reserved bit is as required of a
    /// well-formed type.
    pub fn is_reserved_bit_valid(&self) -> (r: bool)
        ensures
            r == (self@[2] & 32 == 0),
    {
        self.b2 & 32 == 0
    }

    /// Bit 5 of the fourth byte set: the chunk is safe to copy across
    /// transformations that do not understand it.
    pub fn is_safe_to_copy(&self) -> (r: bool)
        ensures
            r == (self@[3] & 32 == 32),
    {
        self.b3 & 32 == 32
    }

    /// All four bytes are ASCII letters and the reserved bit is clear. The
    /// letter check always holds of a constructed tag, so this reduces to the
    /// reserved-bit check.
    pub fn is_valid(&self) -> (r: bool)
        ensures
            r == (wf_type_bytes(self@) && self@[2] & 32 == 0),
    {
        proof {
            use_type_invariant(self);
        }
        let mut i: usize = 0;
        let bs = self.bytes();
        while i < 4
            invariant
                i <= 4,
                bs@ == self@,
                wf_type_bytes(self@),
            decreases 4 - i,
        {
            let b = bs[i];
            if !((65 <= b && b <= 90) || (97 <= b && b <= 122)) {
                return false;
            }
            i += 1;
        }
        self.is_reserved_bit_valid()
    }

    /// The tag rendered as text: the four ASCII letters it was built from.
    pub fn to_string(&self) -> (r: String)
        ensures
            r@.len() == 4,
            forall|i: int| 0 <= i < 4 ==> r@[i] == self@[i] as char,
    {
        proof {
            use_type_invariant(self);
        }
        let bs = self.bytes();
        let mut v: Vec<u8> = Vec::new();
        v.push(bs[0]);
        v.push(bs[1]);
        v.push(bs[2]);
        v.push(bs[3]);
        proof {
            assert(v@ =~= self@);
            let chars = Seq::new(4, |i: int| self@[i] as char);
            assert(is_ascii_chars(chars));
            is_ascii_chars_encode_utf8(chars);
            assert(vstd::utf8::encode_utf8(chars) =~= self@);
            encode_utf8_valid_utf8(chars);
            encode_utf8_decode_utf8(chars);
        }
        let r = utf8_to_string(&v);
        match r {
            Some(s) => s,
            None => unreached(),
        }
    }
}

} // verus!

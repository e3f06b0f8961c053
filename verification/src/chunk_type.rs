//! Validated 4-byte chunk type codes and their semantic bit predicates.

use vstd::prelude::*;
use vstd::string::StrSliceExecFns;

use crate::errors::PngError;
use crate::text::{lemma_ascii_bytes_decode, utf8_to_string};

verus! {

/// An ASCII letter, upper or lower case.
pub open spec fn is_ascii_letter(b: u8) -> bool {
    (65 <= b && b <= 90) || (97 <= b && b <= 122)
}

/// The byte a chunk type character stands for.
pub open spec fn char_to_byte(c: char) -> u8 {
    (c as u32) as u8
}

/// A character that stands for an ASCII letter byte.
pub open spec fn is_ascii_letter_char(c: char) -> bool {
    (65 <= c as u32 && c as u32 <= 90) || (97 <= c as u32 && c as u32 <= 122)
}

/// All four bytes of a chunk type are ASCII letters.
pub open spec fn spec_valid_type_bytes(s: Seq<u8>) -> bool {
    forall|i: int| 0 <= i < s.len() ==> is_ascii_letter(#[trigger] s[i])
}

/// A 4-byte chunk type code. Each byte is an ASCII letter; bit 5 of each
/// byte carries one of the four semantic properties.
#[derive(Debug, Clone, Copy, Eq)]
pub struct ChunkType {
    bytes: [u8; 4],
}

impl View for ChunkType {
    type V = Seq<u8>;

    closed spec fn view(&self) -> Seq<u8> {
        self.bytes@
    }
}

impl PartialEq for ChunkType {
    fn eq(&self, other: &ChunkType) -> (r: bool) {
        let r = self.bytes[0] == other.bytes[0] && self.bytes[1] == other.bytes[1]
            && self.bytes[2] == other.bytes[2] && self.bytes[3] == other.bytes[3];
        proof {
            if r {
                assert(self@ =~= other@);
            }
        }
        r
    }
}

impl vstd::std_specs::cmp::PartialEqSpecImpl for ChunkType {
    open spec fn obeys_eq_spec() -> bool {
        true
    }

    open spec fn eq_spec(&self, other: &ChunkType) -> bool {
        self@ == other@
    }
}

impl ChunkType {
    /// Every byte of this chunk type is an ASCII letter.
    pub open spec fn wf(&self) -> bool {
        spec_valid_type_bytes(self@)
    }

    /// Whether all four bytes are ASCII letters, the construction precondition.
    pub fn is_valid_bytes(bytes: [u8; 4]) -> (r: bool)
        ensures
            r == spec_valid_type_bytes(bytes@),
    {
        let r = Self::letter(bytes[0]) && Self::letter(bytes[1]) && Self::letter(bytes[2])
            && Self::letter(bytes[3]);
        proof {
            if r {
                assert forall|i: int| 0 <= i < 4 implies is_ascii_letter(#[trigger] bytes@[i]) by {
                    assert(bytes@[0] == bytes[0] && bytes@[1] == bytes[1] && bytes@[2] == bytes[2]
                        && bytes@[3] == bytes[3]);
                }
            }
        }
        r
    }

    fn letter(b: u8) -> (r: bool)
        ensures
            r == is_ascii_letter(b),
    {
        (65 <= b && b <= 90) || (97 <= b && b <= 122)
    }

    /// Builds a chunk type from four raw bytes; fails unless every byte is an
    /// ASCII letter.
    pub fn try_from(bytes: [u8; 4]) -> (r: Result<ChunkType, PngError>)
        ensures
            r is Ok <==> spec_valid_type_bytes(bytes@),
            r is Ok ==> r->Ok_0@ == bytes@ && r->Ok_0.wf(),
            r is Err ==> r == Result::<ChunkType, PngError>::Err(PngError::InvalidChunkType),
    {
        if !Self::is_valid_bytes(bytes) {
            return Err(PngError::InvalidChunkType);
        }
        Ok(ChunkType { bytes })
    }

    /// Builds a chunk type from a string: exactly four characters, each an
    /// ASCII letter.
    pub fn from_str(s: &str) -> (r: Result<ChunkType, PngError>)
        ensures
            r is Ok <==> s@.len() == 4 && (forall|i: int|
                0 <= i < 4 ==> is_ascii_letter_char(#[trigger] s@[i])),
            r is Ok ==> r->Ok_0@ == s@.map_values(|c: char| char_to_byte(c)) && r->Ok_0.wf(),
            s@.len() != 4 ==> r == Result::<ChunkType, PngError>::Err(PngError::ExpectedFourBytes),
            s@.len() == 4 && !(forall|i: int|
                0 <= i < 4 ==> is_ascii_letter_char(#[trigger] s@[i])) ==> r == Result::<
                ChunkType,
                PngError,
            >::Err(PngError::InvalidChunkType),
    {
        if s.unicode_len() != 4 {
            return Err(PngError::ExpectedFourBytes);
        }
        let mut bytes: [u8; 4] = [0, 0, 0, 0];
        let mut i: usize = 0;
        while i < 4
            invariant
                i <= 4,
                s@.len() == 4,
                forall|j: int| 0 <= j < i ==> is_ascii_letter_char(#[trigger] s@[j]),
                forall|j: int| 0 <= j < i ==> bytes@[j] == char_to_byte(s@[j]),
            decreases 4 - i,
        {
            let c = s.get_char(i);
            let code = c as u32;
            if !((65 <= code && code <= 90) || (97 <= code && code <= 122)) {
                return Err(PngError::InvalidChunkType);
            }
            bytes[i] = code as u8;
            i += 1;
        }
        assert(bytes@ =~= s@.map_values(|c: char| char_to_byte(c)));
        proof {
            assert forall|i: int| 0 <= i < 4 implies is_ascii_letter(#[trigger] bytes@[i]) by {
                assert(is_ascii_letter_char(s@[i]));
            }
        }
        Ok(ChunkType { bytes })
    }

    /// The four raw bytes of this chunk type.
    pub fn bytes(&self) -> (r: [u8; 4])
        ensures
            r@ == self@,
    {
        self.bytes
    }

    /// The four bytes rendered as text, one character per letter byte.
    pub fn as_string(&self) -> (r: String)
        requires
            self.wf(),
        ensures
            r@ == self@.map_values(|b: u8| b as char),
    {
        let b = self.bytes();
        let mut v: Vec<u8> = Vec::new();
        v.push(b[0]);
        v.push(b[1]);
        v.push(b[2]);
        v.push(b[3]);
        assert(v@ =~= self@);
        proof {
            assert(forall|i: int| 0 <= i < v@.len() ==> #[trigger] v@[i] < 128);
            lemma_ascii_bytes_decode(v@);
        }
        match utf8_to_string(&v) {
            Some(s) => s,
            None => vstd::pervasive::unreached(),
        }
    }

    /// Overall validity: exactly the reserved-bit rule, the one property the
    /// container enforces.
    pub fn is_valid(&self) -> (r: bool)
        ensures
            r == spec_is_reserved_bit_valid(self@),
    {
        self.is_reserved_bit_valid()
    }

    /// Critical when bit 5 of the first byte is clear.
    pub fn is_critical(&self) -> (r: bool)
        ensures
            r == spec_is_critical(self@),
    {
        self.bytes[0] & 32 == 0
    }

    /// Public when bit 5 of the second byte is clear.
    pub fn is_public(&self) -> (r: bool)
        ensures
            r == spec_is_public(self@),
    {
        self.bytes[1] & 32 == 0
    }

    /// Reserved bit valid when bit 5 of the third byte is clear.
    pub fn is_reserved_bit_valid(&self) -> (r: bool)
        ensures
            r == spec_is_reserved_bit_valid(self@),
    {
        self.bytes[2] & 32 == 0
    }

    /// Safe to copy when bit 5 of the fourth byte is set.
    pub fn is_safe_to_copy(&self) -> (r: bool)
        ensures
            r == spec_is_safe_to_copy(self@),
    {
        self.bytes[3] & 32 != 0
    }
}

/// Bit 5 of the first byte is clear.
pub open spec fn spec_is_critical(t: Seq<u8>) -> bool {
    t[0] & 32 == 0
}

/// Bit 5 of the second byte is clear.
pub open spec fn spec_is_public(t: Seq<u8>) -> bool {
    t[1] & 32 == 0
}

/// Bit 5 of the third byte is clear.
pub open spec fn spec_is_reserved_bit_valid(t: Seq<u8>) -> bool {
    t[2] & 32 == 0
}

/// Bit 5 of the fourth byte is set.
pub open spec fn spec_is_safe_to_copy(t: Seq<u8>) -> bool {
    t[3] & 32 != 0
}

} // verus!

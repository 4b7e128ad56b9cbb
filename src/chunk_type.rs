//! Four-byte chunk type tags and the flags carried by their letter case.
use vstd::prelude::*;

use crate::codec::{lossy_text, utf8_lossy};
use crate::error::PngError;
use vstd::string::StringSliceAdditionalSpecFns;

verus! {

/// An ASCII letter: `A`..=`Z` or `a`..=`z`.
pub open spec fn is_ascii_letter(b: u8) -> bool {
    (65 <= b && b <= 90) || (97 <= b && b <= 122)
}

/// Whether bit 0x20 (the lowercase bit of a letter) is set in `b`.
pub open spec fn flag_bit(b: u8) -> bool {
    b & 0x20u8 != 0
}

/// A chunk type's validity: the flag bit of its third byte is clear.
pub open spec fn type_is_valid(t: Seq<u8>) -> bool {
    !flag_bit(t[2])
}

/// The index of the first byte of `b` that is not an ASCII letter, or
/// `b.len()` when all are letters.
pub open spec fn first_non_letter(b: Seq<u8>) -> int
    decreases b.len(),
{
    if b.len() == 0 {
        0
    } else if !is_ascii_letter(b[0]) {
        0
    } else {
        1 + first_non_letter(b.drop_first())
    }
}

/// Whether the text with bytes `b` is accepted as a chunk type.
pub open spec fn type_text_accepted(b: Seq<u8>) -> bool {
    b.len() == 4 && first_non_letter(b) == 4
}

/// The error reported for text `s` that is not accepted as a chunk type.
pub open spec fn type_text_error(s: &str, e: PngError) -> bool {
    if s.spec_bytes().len() != 4 {
        e matches PngError::InvalidChunkLength(t) && t@ == s@
    } else {
        e == PngError::InvalidByte(s.spec_bytes()[first_non_letter(s.spec_bytes())])
    }
}

/// A chunk type: four bytes whose letter case encodes four flags.
#[derive(Debug, Clone, Copy, PartialEq, Eq)]
pub struct ChunkType([u8; 4]);

impl View for ChunkType {
    type V = Seq<u8>;

    closed spec fn view(&self) -> Seq<u8> {
        self.0@
    }
}

/// A chunk type always has four bytes.
pub broadcast proof fn lemma_chunk_type_len(t: ChunkType)
    ensures
        #[trigger] t@.len() == 4,
{
}

impl From<[u8; 4]> for ChunkType {
    fn from(value: [u8; 4]) -> (r: ChunkType)
        ensures
            r@ == value@,
    {
        ChunkType(value)
    }
}

impl vstd::std_specs::convert::FromSpecImpl<[u8; 4]> for ChunkType {
    open spec fn obeys_from_spec() -> bool {
        true
    }

    closed spec fn from_spec(v: [u8; 4]) -> ChunkType {
        ChunkType(v)
    }
}

fn byte_is_valid(b: u8) -> (r: bool)
    ensures
        r == is_ascii_letter(b),
{
    (65 <= b && b <= 90) || (97 <= b && b <= 122)
}

proof fn lemma_first_non_letter_step(b: Seq<u8>, i: int)
    requires
        0 <= i < b.len(),
        forall|j: int| 0 <= j < i ==> is_ascii_letter(#[trigger] b[j]),
    ensures
        !is_ascii_letter(b[i]) ==> first_non_letter(b) == i,
        is_ascii_letter(b[i]) ==> (forall|j: int| 0 <= j < i + 1 ==> is_ascii_letter(#[trigger] b[j])),
    decreases i,
{
    if i > 0 {
        assert(is_ascii_letter(b[0]));
        lemma_first_non_letter_step(b.drop_first(), i - 1);
    }
}

proof fn lemma_all_letters(b: Seq<u8>)
    requires
        forall|j: int| 0 <= j < b.len() ==> is_ascii_letter(#[trigger] b[j]),
    ensures
        first_non_letter(b) == b.len(),
    decreases b.len(),
{
    if b.len() > 0 {
        assert(is_ascii_letter(b[0]));
        lemma_all_letters(b.drop_first());
    }
}

impl ChunkType {
    /// Reads a chunk type from its text: four ASCII letters.
    pub fn from_text(s: &str) -> (r: Result<ChunkType, PngError>)
        ensures
            r is Ok <==> type_text_accepted(s.spec_bytes()),
            r matches Err(e) ==> type_text_error(s, e),
            r matches Ok(t) ==> t@ == s.spec_bytes(),
    {
        let bytes = s.as_bytes();
        if bytes.len() != 4 {
            return Err(PngError::InvalidChunkLength(s.to_owned()));
        }
        let mut i: usize = 0;
        while i < 4
            invariant
                bytes@ == s.spec_bytes(),
                bytes@.len() == 4,
                0 <= i <= 4,
                forall|j: int| 0 <= j < i ==> is_ascii_letter(#[trigger] bytes@[j]),
            decreases 4 - i,
        {
            proof {
                lemma_first_non_letter_step(bytes@, i as int);
            }
            if !byte_is_valid(bytes[i]) {
                return Err(PngError::InvalidByte(bytes[i]));
            }
            i = i + 1;
        }
        proof {
            lemma_all_letters(bytes@);
        }
        let t = ChunkType([bytes[0], bytes[1], bytes[2], bytes[3]]);
        assert(t@ =~= bytes@);
        Ok(t)
    }

    /// The four bytes of the type.
    pub fn bytes(&self) -> (r: [u8; 4])
        ensures
            r@ == self@,
    {
        self.0
    }

    /// Critical: the flag bit of the first byte is clear.
    pub fn is_critical(&self) -> (r: bool)
        ensures
            r == !flag_bit(self@[0]),
    {
        self.0[0] & 0x20u8 == 0
    }

    /// Public: the flag bit of the second byte is clear.
    pub fn is_public(&self) -> (r: bool)
        ensures
            r == !flag_bit(self@[1]),
    {
        self.0[1] & 0x20u8 == 0
    }

    /// Reserved bit valid: the flag bit of the third byte is clear.
    pub fn is_reserved_bit_valid(&self) -> (r: bool)
        ensures
            r == !flag_bit(self@[2]),
    {
        self.0[2] & 0x20u8 == 0
    }

    /// Safe to copy: the flag bit of the fourth byte is set.
    pub fn is_safe_to_copy(&self) -> (r: bool)
        ensures
            r == flag_bit(self@[3]),
    {
        self.0[3] & 0x20u8 != 0
    }

    /// A type is valid exactly when its reserved bit is valid.
    pub fn is_valid(&self) -> (r: bool)
        ensures
            r == type_is_valid(self@),
    {
        self.is_reserved_bit_valid()
    }

    /// The type as text: its four bytes read as characters.
    pub fn to_string(&self) -> (r: String)
        ensures
            r@ == utf8_lossy(self@),
    {
        lossy_text(self.0.as_slice())
    }
}

impl std::str::FromStr for ChunkType {
    type Err = PngError;

    fn from_str(s: &str) -> Result<ChunkType, PngError> {
        ChunkType::from_text(s)
    }
}

} // verus!

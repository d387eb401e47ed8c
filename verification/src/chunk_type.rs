//! The four-letter type of a chunk and the four flags that the case of its
//! letters encodes.

use crate::error::InvalidChunkType;
use crate::text::str_from_utf8;
use std::str::FromStr;
use vstd::prelude::*;
use vstd::std_specs::convert::TryFromSpecImpl;
use vstd::string::StringSliceAdditionalSpecFns;
use vstd::utf8::*;

verus! {

/// The bit that tells a lower-case letter from the upper-case one. In each of
/// the four bytes of a chunk type it is one flag of the chunk.
pub const CASE_BIT: u8 = 0x20;

/// `byte` is one of `A`..=`Z` or `a`..=`z`.
pub open spec fn is_letter(byte: u8) -> bool {
    (0x41 <= byte <= 0x5a) || (0x61 <= byte <= 0x7a)
}

/// The case bit of `byte`, the one that counts 32, is 0, as in an upper-case
/// letter.
pub open spec fn case_bit_clear(byte: u8) -> bool {
    byte / 32 % 2 == 0
}

/// Whether the case bit of `byte` is 0.
fn has_case_bit_clear(byte: u8) -> (clear: bool)
    ensures
        clear == case_bit_clear(byte),
{
    assert((byte & 0x20 == 0) == (byte / 32 % 2 == 0)) by (bit_vector);
    byte & CASE_BIT == 0
}

/// `bytes` are four letters: what a [`ChunkType`] can hold.
pub open spec fn are_letters(bytes: Seq<u8>) -> bool {
    &&& bytes.len() == 4
    &&& forall|i: int| 0 <= i < 4 ==> is_letter(#[trigger] bytes[i])
}

/// The first letter is upper-case: the chunk is critical, not ancillary.
pub open spec fn critical(bytes: Seq<u8>) -> bool
    recommends
        bytes.len() == 4,
{
    case_bit_clear(bytes[0])
}

/// The second letter is upper-case: the chunk type is public, not private.
pub open spec fn public(bytes: Seq<u8>) -> bool
    recommends
        bytes.len() == 4,
{
    case_bit_clear(bytes[1])
}

/// The third letter is upper-case, as the format demands of every type that
/// is defined so far.
pub open spec fn reserved_bit_valid(bytes: Seq<u8>) -> bool
    recommends
        bytes.len() == 4,
{
    case_bit_clear(bytes[2])
}

/// The fourth letter is lower-case: an editor that does not know the chunk
/// may copy it to a changed file.
pub open spec fn safe_to_copy(bytes: Seq<u8>) -> bool
    recommends
        bytes.len() == 4,
{
    !case_bit_clear(bytes[3])
}

/// `bytes` are a chunk type that a file may hold: four letters, the third of
/// them upper-case.
pub open spec fn is_valid_type(bytes: Seq<u8>) -> bool {
    are_letters(bytes) && reserved_bit_valid(bytes)
}

/// The text of a chunk type: its four letters as characters.
pub open spec fn type_text(bytes: Seq<u8>) -> Seq<char> {
    Seq::new(bytes.len(), |i: int| bytes[i] as char)
}

/// A chunk type: four ASCII letters.
#[derive(Debug, Clone, Copy, PartialEq, Eq)]
pub struct ChunkType {
    chunk_bytes: [u8; 4],
}

impl View for ChunkType {
    type V = Seq<u8>;

    closed spec fn view(&self) -> Seq<u8> {
        self.chunk_bytes@
    }
}

impl ChunkType {
    #[verifier::type_invariant]
    spec fn letters_only(self) -> bool {
        are_letters(self.chunk_bytes@)
    }

    /// A chunk type has four bytes.
    pub proof fn lemma_view_len(self)
        ensures
            self@.len() == 4,
    {
    }

    /// Two chunk types with the same bytes are the same chunk type.
    pub proof fn lemma_view_injective(self, other: ChunkType)
        requires
            self@ == other@,
        ensures
            self == other,
    {
        assert(self.chunk_bytes =~= other.chunk_bytes);
    }

    /// The four bytes of the type.
    pub fn bytes(&self) -> (bytes: [u8; 4])
        ensures
            bytes@ == self@,
            are_letters(bytes@),
    {
        proof {
            use_type_invariant(self);
        }
        self.chunk_bytes
    }

    /// Whether the chunk is critical (first letter upper-case) rather than
    /// ancillary.
    pub fn is_critical(&self) -> (flag: bool)
        ensures
            flag == critical(self@),
    {
        has_case_bit_clear(self.chunk_bytes[0])
    }

    /// Whether the chunk type is public (second letter upper-case) rather
    /// than private.
    pub fn is_public(&self) -> (flag: bool)
        ensures
            flag == public(self@),
    {
        has_case_bit_clear(self.chunk_bytes[1])
    }

    /// Whether the reserved bit is as the format demands (third letter
    /// upper-case).
    pub fn is_reserved_bit_valid(&self) -> (flag: bool)
        ensures
            flag == reserved_bit_valid(self@),
    {
        has_case_bit_clear(self.chunk_bytes[2])
    }

    /// Whether the chunk may be copied by an editor that does not know it
    /// (fourth letter lower-case).
    pub fn is_safe_to_copy(&self) -> (flag: bool)
        ensures
            flag == safe_to_copy(self@),
    {
        !has_case_bit_clear(self.chunk_bytes[3])
    }

    /// Whether a file may hold a chunk of this type: the reserved bit is
    /// valid and the four bytes are letters.
    pub fn is_valid(&self) -> (valid: bool)
        ensures
            valid == is_valid_type(self@),
            valid == reserved_bit_valid(self@),
    {
        proof {
            use_type_invariant(self);
        }
        self.is_reserved_bit_valid() && ChunkType::is_valid_bytes(self.chunk_bytes)
    }

    /// Whether `byte` is an ASCII letter.
    pub fn is_valid_byte(byte: u8) -> (valid: bool)
        ensures
            valid == is_letter(byte),
    {
        (0x41 <= byte && byte <= 0x5a) || (0x61 <= byte && byte <= 0x7a)
    }

    /// Whether each of the four bytes is an ASCII letter.
    pub fn is_valid_bytes(bytes: [u8; 4]) -> (valid: bool)
        ensures
            valid == are_letters(bytes@),
    {
        for i in 0..4
            invariant
                forall|j: int| 0 <= j < i ==> is_letter(#[trigger] bytes@[j]),
        {
            if !ChunkType::is_valid_byte(bytes[i]) {
                return false;
            }
        }
        true
    }

    /// The chunk type with these four bytes, if they are letters. A set
    /// reserved bit is accepted here: [`ChunkType::is_valid`] tells.
    pub fn parse(bytes: [u8; 4]) -> (parsed: Result<ChunkType, InvalidChunkType>)
        ensures
            parsed is Ok <==> are_letters(bytes@),
            parsed is Ok ==> parsed->Ok_0@ == bytes@,
    {
        if !ChunkType::is_valid_bytes(bytes) {
            return Err(InvalidChunkType);
        }
        Ok(ChunkType { chunk_bytes: bytes })
    }

    /// The chunk type that `s` spells. Stricter than [`ChunkType::parse`]:
    /// the UTF-8 encoding of `s` must be exactly four letters, and the
    /// reserved bit must be valid.
    pub fn parse_str(s: &str) -> (parsed: Result<ChunkType, InvalidChunkType>)
        ensures
            parsed is Ok <==> is_valid_type(s.spec_bytes()),
            parsed is Ok ==> parsed->Ok_0@ == s.spec_bytes(),
    {
        let encoded = s.as_bytes();
        if encoded.len() != 4 {
            return Err(InvalidChunkType);
        }
        let bytes: [u8; 4] = [encoded[0], encoded[1], encoded[2], encoded[3]];
        match ChunkType::parse(bytes) {
            Ok(chunk_type) => {
                if chunk_type.is_valid() {
                    Ok(chunk_type)
                } else {
                    Err(InvalidChunkType)
                }
            },
            Err(e) => Err(e),
        }
    }

    /// The four letters as text.
    pub fn to_string(&self) -> (text: String)
        ensures
            text@ == type_text(self@),
    {
        proof {
            use_type_invariant(self);
            lemma_letters_are_text(self@);
        }
        match str_from_utf8(self.chunk_bytes.as_slice()) {
            Some(text) => {
                proof {
                    encode_utf8_decode_utf8(text@);
                }
                text.to_owned()
            },
            None => String::new(),
        }
    }
}

/// Four letters are well-formed UTF-8, and decode to themselves.
pub proof fn lemma_letters_are_text(bytes: Seq<u8>)
    requires
        are_letters(bytes),
    ensures
        valid_utf8(bytes),
        decode_utf8(bytes) == type_text(bytes),
        encode_utf8(type_text(bytes)) == bytes,
{
    let text = type_text(bytes);
    is_ascii_chars_encode_utf8(text);
    assert(encode_utf8(text) =~= bytes);
    encode_utf8_valid_utf8(text);
    encode_utf8_decode_utf8(text);
}

/// A string spells a chunk type exactly when the string's UTF-8 encoding is
/// the type's four bytes: to compare the text of a type with a string is to
/// compare bytes.
pub proof fn lemma_text_names_type(bytes: Seq<u8>, text: Seq<char>)
    requires
        are_letters(bytes),
    ensures
        type_text(bytes) == text <==> encode_utf8(text) == bytes,
{
    lemma_letters_are_text(bytes);
    if encode_utf8(text) == bytes {
        encode_utf8_decode_utf8(text);
    }
}

impl TryFrom<[u8; 4]> for ChunkType {
    type Error = InvalidChunkType;

    /// As [`ChunkType::parse`].
    fn try_from(bytes: [u8; 4]) -> (parsed: Result<Self, Self::Error>)
        ensures
            parsed is Ok <==> are_letters(bytes@),
            parsed is Ok ==> parsed->Ok_0@ == bytes@,
    {
        ChunkType::parse(bytes)
    }
}

/// What `try_from` returns is stated in its own contract, over the view of
/// the value. No spec function is offered that builds the value itself, so
/// the generic law of `TryFrom` is switched off for this type.
impl TryFromSpecImpl<[u8; 4]> for ChunkType {
    open spec fn obeys_try_from_spec() -> bool {
        false
    }

    open spec fn try_from_spec(bytes: [u8; 4]) -> Result<Self, Self::Error> {
        Err(InvalidChunkType)
    }
}

impl FromStr for ChunkType {
    type Err = InvalidChunkType;

    /// As [`ChunkType::parse_str`].
    fn from_str(s: &str) -> (parsed: Result<Self, Self::Err>)
        ensures
            parsed is Ok <==> is_valid_type(s.spec_bytes()),
            parsed is Ok ==> parsed->Ok_0@ == s.spec_bytes(),
    {
        ChunkType::parse_str(s)
    }
}

} // verus!

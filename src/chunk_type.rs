use vstd::prelude::*;

use vstd::utf8::{decode_utf8, encode_utf8, is_ascii_chars, valid_utf8};

use crate::bytes::string_from_utf8;
use crate::error::PngError;

verus! {

/// The bit that tells a lower-case ASCII letter from its upper-case form.
pub const CASE_BIT: u8 = 0x20;

/// A byte of the ASCII range.
pub open spec fn is_ascii_byte(b: u8) -> bool {
    b < 128
}

/// An ASCII letter.
pub open spec fn is_alpha_char(c: char) -> bool {
    ('A' <= c && c <= 'Z') || ('a' <= c && c <= 'z')
}

/// The property that a type byte carries: set when the letter is upper case.
pub open spec fn case_bit_clear(b: u8) -> bool {
    b & CASE_BIT == 0
}

pub open spec fn all_ascii(b: Seq<u8>) -> bool {
    forall|i: int| 0 <= i < b.len() ==> is_ascii_byte(#[trigger] b[i])
}

pub open spec fn all_alpha(s: Seq<char>) -> bool {
    forall|i: int| 0 <= i < s.len() ==> is_alpha_char(#[trigger] s[i])
}

/// The text that a sequence of ASCII type bytes reads as.
pub open spec fn tag_text(b: Seq<u8>) -> Seq<char> {
    b.map_values(|x: u8| x as char)
}

/// The bytes of a text made of ASCII characters.
pub open spec fn text_bytes(s: Seq<char>) -> Seq<u8> {
    s.map_values(|c: char| c as u8)
}

/// Critical: the first letter is upper case.
pub open spec fn spec_is_critical(b: Seq<u8>) -> bool {
    case_bit_clear(b[0])
}

/// Public: the second letter is upper case.
pub open spec fn spec_is_public(b: Seq<u8>) -> bool {
    case_bit_clear(b[1])
}

/// Reserved bit valid: the third letter is upper case.
pub open spec fn spec_is_reserved_bit_valid(b: Seq<u8>) -> bool {
    case_bit_clear(b[2])
}

/// Safe to copy: the fourth letter is lower case.
pub open spec fn spec_is_safe_to_copy(b: Seq<u8>) -> bool {
    !case_bit_clear(b[3])
}

/// A type that a conforming file may hold: ASCII, with the reserved bit clear.
pub open spec fn spec_is_valid(b: Seq<u8>) -> bool {
    all_ascii(b) && spec_is_reserved_bit_valid(b)
}

/// A type built from text reads as that text again.
pub proof fn lemma_text_round_trip(s: Seq<char>)
    requires
        all_alpha(s),
    ensures
        tag_text(text_bytes(s)) == s,
{
    assert forall|i: int| 0 <= i < s.len() implies tag_text(text_bytes(s))[i] == s[i] by {
        let c = s[i];
        assert(is_alpha_char(c));
        assert((c as u8) as char == c);
    }
    assert(tag_text(text_bytes(s)) =~= s);
}

/// ASCII bytes are valid UTF-8, and decode to one character each.
pub proof fn lemma_ascii_utf8(b: Seq<u8>)
    requires
        all_ascii(b),
    ensures
        valid_utf8(b),
        decode_utf8(b) == tag_text(b),
{
    let chars = tag_text(b);
    assert(is_ascii_chars(chars));
    vstd::utf8::is_ascii_chars_encode_utf8(chars);
    assert(encode_utf8(chars) =~= b);
    vstd::utf8::encode_utf8_valid_utf8(chars);
    vstd::utf8::encode_utf8_decode_utf8(chars);
}

/// The four-byte type of a chunk. The case of each letter carries one property.
#[derive(Debug, Clone, Copy)]
pub struct ChunkType {
    bytes: [u8; 4],
}

impl ChunkType {
    #[verifier::type_invariant]
    pub(crate) open spec fn inv(&self) -> bool {
        all_ascii(self@)
    }
}

impl View for ChunkType {
    type V = Seq<u8>;

    closed spec fn view(&self) -> Seq<u8> {
        self.bytes@
    }
}

/// Two types are equal when their bytes are.
impl PartialEq for ChunkType {
    fn eq(&self, other: &ChunkType) -> (r: bool) {
        let r = self.bytes[0] == other.bytes[0] && self.bytes[1] == other.bytes[1] && self.bytes[2]
            == other.bytes[2] && self.bytes[3] == other.bytes[3];
        proof {
            if r {
                assert(self.bytes@ =~= other.bytes@);
            }
        }
        r
    }
}

impl vstd::std_specs::cmp::PartialEqSpecImpl for ChunkType {
    open spec fn obeys_eq_spec() -> bool {
        true
    }

    open spec fn eq_spec(&self, other: &ChunkType) -> bool {
        self@ == other@
    }
}

impl ChunkType {
    /// A chunk type holds four bytes.
    pub proof fn lemma_len(&self)
        ensures
            self@.len() == 4,
    {
    }

    /// Builds a type from four bytes, all of which must be ASCII.
    pub fn from_bytes(bytes: [u8; 4]) -> (r: Result<ChunkType, PngError>)
        ensures
            all_ascii(bytes@) ==> (r matches Ok(t) && t@ == bytes@),
            !all_ascii(bytes@) ==> r == Err::<ChunkType, PngError>(PngError::InvalidByte),
    {
        let mut i: usize = 0;
        while i < 4
            invariant
                0 <= i <= 4,
                forall|j: int| 0 <= j < i ==> is_ascii_byte(#[trigger] bytes@[j]),
            decreases 4 - i,
        {
            if bytes[i] >= 128 {
                return Err(PngError::InvalidByte);
            }
            i += 1;
        }
        Ok(ChunkType { bytes })
    }

    /// Builds a type from four ASCII letters.
    pub fn from_str(s: &str) -> (r: Result<ChunkType, PngError>)
        ensures
            s@.len() != 4 ==> r == Err::<ChunkType, PngError>(PngError::InvalidLength),
            s@.len() == 4 && !all_alpha(s@) ==> r == Err::<ChunkType, PngError>(
                PngError::InvalidCharacter,
            ),
            s@.len() == 4 && all_alpha(s@) ==> (r matches Ok(t) && t@ == text_bytes(s@)),
    {
        if s.unicode_len() != 4 {
            return Err(PngError::InvalidLength);
        }
        let mut i: usize = 0;
        while i < 4
            invariant
                0 <= i <= 4,
                s@.len() == 4,
                forall|j: int| 0 <= j < i ==> is_alpha_char(#[trigger] s@[j]),
            decreases 4 - i,
        {
            let c = s.get_char(i);
            if !(('A' <= c && c <= 'Z') || ('a' <= c && c <= 'z')) {
                return Err(PngError::InvalidCharacter);
            }
            i += 1;
        }
        let bytes: [u8; 4] = [
            s.get_char(0) as u8,
            s.get_char(1) as u8,
            s.get_char(2) as u8,
            s.get_char(3) as u8,
        ];
        assert(bytes@ =~= text_bytes(s@));
        Ok(ChunkType { bytes })
    }

    pub fn bytes(&self) -> (r: [u8; 4])
        ensures
            r@ == self@,
            all_ascii(r@),
    {
        proof {
            use_type_invariant(self);
        }
        self.bytes
    }

    /// The type as text: one character for each byte.
    pub fn to_string(&self) -> (r: String)
        ensures
            r@ == tag_text(self@),
    {
        proof {
            use_type_invariant(self);
            lemma_ascii_utf8(self@);
        }
        let v: Vec<u8> = vec![self.bytes[0], self.bytes[1], self.bytes[2], self.bytes[3]];
        assert(v@ =~= self@);
        match string_from_utf8(v) {
            Some(s) => s,
            None => String::new(),
        }
    }

    pub fn is_valid(&self) -> (r: bool)
        ensures
            r == spec_is_valid(self@),
    {
        let mut i: usize = 0;
        while i < 4
            invariant
                0 <= i <= 4,
                self.bytes@.len() == 4,
                forall|j: int| 0 <= j < i ==> is_ascii_byte(#[trigger] self.bytes@[j]),
            decreases 4 - i,
        {
            if self.bytes[i] >= 128 {
                return false;
            }
            i += 1;
        }
        self.is_reserved_bit_valid()
    }

    pub fn is_critical(&self) -> (r: bool)
        ensures
            r == spec_is_critical(self@),
    {
        self.bytes[0] & CASE_BIT == 0
    }

    pub fn is_public(&self) -> (r: bool)
        ensures
            r == spec_is_public(self@),
    {
        self.bytes[1] & CASE_BIT == 0
    }

    pub fn is_reserved_bit_valid(&self) -> (r: bool)
        ensures
            r == spec_is_reserved_bit_valid(self@),
    {
        self.bytes[2] & CASE_BIT == 0
    }

    pub fn is_safe_to_copy(&self) -> (r: bool)
        ensures
            r == spec_is_safe_to_copy(self@),
    {
        self.bytes[3] & CASE_BIT != 0
    }

    /// Whether the type reads as the text `s`.
    pub fn matches_str(&self, s: &str) -> (r: bool)
        ensures
            r == (tag_text(self@) == s@),
    {
        if s.unicode_len() != 4 {
            return false;
        }
        let mut i: usize = 0;
        while i < 4
            invariant
                0 <= i <= 4,
                s@.len() == 4,
                self.bytes@.len() == 4,
                forall|j: int| 0 <= j < i ==> s@[j] == (#[trigger] self.bytes@[j]) as char,
            decreases 4 - i,
        {
            if s.get_char(i) != self.bytes[i] as char {
                assert(tag_text(self@)[i as int] != s@[i as int]);
                return false;
            }
            i += 1;
        }
        assert(tag_text(self@) =~= s@);
        true
    }
}

impl TryFrom<[u8; 4]> for ChunkType {
    type Error = PngError;

    fn try_from(bytes: [u8; 4]) -> (r: Result<ChunkType, PngError>)
        ensures
            all_ascii(bytes@) ==> (r matches Ok(t) && t@ == bytes@),
            !all_ascii(bytes@) ==> r == Err::<ChunkType, PngError>(PngError::InvalidByte),
    {
        let r = ChunkType::from_bytes(bytes);
        proof {
            if let Ok(t) = r {
                assert(t.bytes@ == bytes@);
                vstd::array::axiom_array_ext_equal(t.bytes, bytes);
            }
        }
        r
    }
}

impl vstd::std_specs::convert::TryFromSpecImpl<[u8; 4]> for ChunkType {
    open spec fn obeys_try_from_spec() -> bool {
        true
    }

    closed spec fn try_from_spec(bytes: [u8; 4]) -> Result<ChunkType, PngError> {
        if all_ascii(bytes@) {
            Ok(ChunkType { bytes })
        } else {
            Err(PngError::InvalidByte)
        }
    }
}

impl std::str::FromStr for ChunkType {
    type Err = PngError;

    fn from_str(s: &str) -> (r: Result<ChunkType, PngError>)
        ensures
            s@.len() != 4 ==> r == Err::<ChunkType, PngError>(PngError::InvalidLength),
            s@.len() == 4 && !all_alpha(s@) ==> r == Err::<ChunkType, PngError>(
                PngError::InvalidCharacter,
            ),
            s@.len() == 4 && all_alpha(s@) ==> (r matches Ok(t) && t@ == text_bytes(s@)),
    {
        ChunkType::from_str(s)
    }
}

} // verus!

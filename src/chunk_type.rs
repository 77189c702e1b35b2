use vstd::prelude::*;

use crate::error::PngError;
use vstd::utf8::*;

verus! {

/// A byte in `A-Z` or `a-z`.
pub open spec fn is_alpha(b: u8) -> bool {
    (65 <= b && b <= 90) || (97 <= b && b <= 122)
}

/// A character in `A-Z` or `a-z`.
pub open spec fn is_alpha_char(c: char) -> bool {
    (65 <= (c as u32) && (c as u32) <= 90) || (97 <= (c as u32) && (c as u32) <= 122)
}

/// The property bit of a type byte: the one with value 32.
pub open spec fn property_bit(b: u8) -> bool {
    b & 0x20u8 != 0
}

/// A label that names a chunk type: four ASCII letters.
pub open spec fn is_type_label(s: Seq<char>) -> bool {
    s.len() == 4 && forall|i: int| 0 <= i < 4 ==> is_alpha_char(#[trigger] s[i])
}

/// Every byte is ASCII.
pub open spec fn is_ascii_bytes(b: Seq<u8>) -> bool {
    forall|i: int| 0 <= i < b.len() ==> #[trigger] b[i] < 128
}

/// The characters that ASCII bytes stand for, one per byte.
pub open spec fn ascii_text(b: Seq<u8>) -> Seq<char> {
    b.map_values(|x: u8| x as char)
}

/// The bytes of a label, one per character.
pub open spec fn label_bytes(s: Seq<char>) -> Seq<u8> {
    s.map_values(|c: char| c as u8)
}

/// `label` is how the type code `t` renders: `t` is ASCII and reads as `label`.
pub open spec fn names_type(label: Seq<char>, t: Seq<u8>) -> bool {
    is_ascii_bytes(t) && label == ascii_text(t)
}

/// A type code is valid when its four bytes are letters and its reserved bit is clear.
pub open spec fn is_valid_type(t: Seq<u8>) -> bool {
    &&& !property_bit(t[2])
    &&& forall|i: int| 0 <= i < 4 ==> is_alpha(#[trigger] t[i])
}

/// Relies on `std::str::from_utf8`: it succeeds exactly on valid UTF-8 and
/// then reads the characters that the bytes encode.
#[verifier::external_body]
pub(crate) fn utf8_text<'a>(bytes: &'a [u8]) -> (r: Option<&'a str>)
    ensures
        r is Some <==> valid_utf8(bytes@),
        r matches Some(s) ==> s@ == decode_utf8(bytes@),
{
    match std::str::from_utf8(bytes) {
        Ok(s) => Some(s),
        Err(_) => None,
    }
}

/// ASCII bytes are valid UTF-8 and decode to one character each.
proof fn lemma_ascii_decodes(b: Seq<u8>)
    requires
        is_ascii_bytes(b),
    ensures
        valid_utf8(b),
        decode_utf8(b) == ascii_text(b),
{
    let chars = ascii_text(b);
    assert(is_ascii_chars(chars));
    is_ascii_chars_encode_utf8(chars);
    assert(encode_utf8(chars) =~= b);
    encode_utf8_valid_utf8(chars);
    encode_utf8_decode_utf8(chars);
}

/// Why a label that is not a type label is refused.
pub open spec fn label_error(s: Seq<char>) -> PngError {
    if s.len() != 4 {
        PngError::InvalidLength
    } else {
        PngError::InvalidByte
    }
}

/// A four-byte chunk type code, kept verbatim as read.
#[derive(Debug, Clone, Copy, Eq)]
pub struct ChunkType {
    value: [u8; 4],
}

impl View for ChunkType {
    type V = Seq<u8>;

    closed spec fn view(&self) -> Seq<u8> {
        self.value@
    }
}

/// A type code always has exactly four bytes.
pub broadcast proof fn lemma_type_len(t: ChunkType)
    ensures
        #[trigger] t@.len() == 4,
{
}

impl PartialEq for ChunkType {
    /// Byte-for-byte identity; case matters.
    fn eq(&self, other: &ChunkType) -> (r: bool) {
        let r = self.value[0] == other.value[0] && self.value[1] == other.value[1]
            && self.value[2] == other.value[2] && self.value[3] == other.value[3];
        proof {
            if r {
                assert(self@ =~= other@);
            }
        }
        r
    }
}

impl vstd::std_specs::cmp::PartialEqSpecImpl for ChunkType {
    open spec fn obeys_eq_spec() -> bool {
        true
    }

    open spec fn eq_spec(&self, other: &ChunkType) -> bool {
        self@ == other@
    }
}

impl ChunkType {
    /// Takes any four bytes as a type code; never fails.
    pub fn try_from(value: [u8; 4]) -> (r: Result<ChunkType, PngError>)
        ensures
            r matches Ok(t) && t@ == value@,
    {
        Ok(ChunkType { value })
    }

    /// The four bytes as stored.
    pub fn bytes(&self) -> (r: [u8; 4])
        ensures
            r@ == self@,
    {
        self.value
    }

    /// Needed to display the image: the property bit of byte 0 is clear.
    pub fn is_critical(&self) -> (r: bool)
        ensures
            r == !property_bit(self@[0]),
    {
        self.value[0] & 0x20 == 0
    }

    /// Part of the public specification: the property bit of byte 1 is clear.
    pub fn is_public(&self) -> (r: bool)
        ensures
            r == !property_bit(self@[1]),
    {
        self.value[1] & 0x20 == 0
    }

    /// Conforms to the current format version: the property bit of byte 2 is clear.
    pub fn is_reserved_bit_valid(&self) -> (r: bool)
        ensures
            r == !property_bit(self@[2]),
    {
        self.value[2] & 0x20 == 0
    }

    /// May be copied by editors that do not know it: the property bit of byte 3 is set.
    pub fn is_safe_to_copy(&self) -> (r: bool)
        ensures
            r == property_bit(self@[3]),
    {
        self.value[3] & 0x20 != 0
    }

    /// A byte that may stand in a type label: an ASCII letter.
    pub fn is_valid_byte(byte: u8) -> (r: bool)
        ensures
            r == is_alpha(byte),
    {
        (65 <= byte && byte <= 90) || (97 <= byte && byte <= 122)
    }

    /// Four ASCII letters with the reserved bit clear.
    pub fn is_valid(&self) -> (r: bool)
        ensures
            r == is_valid_type(self@),
    {
        self.is_reserved_bit_valid() && ChunkType::is_valid_byte(self.value[0])
            && ChunkType::is_valid_byte(self.value[1]) && ChunkType::is_valid_byte(self.value[2])
            && ChunkType::is_valid_byte(self.value[3])
    }

    fn is_valid_char(c: char) -> (r: bool)
        ensures
            r == is_alpha_char(c),
    {
        let v = c as u32;
        (65 <= v && v <= 90) || (97 <= v && v <= 122)
    }

    /// Reads a label of four ASCII letters as a type code.
    pub fn from_str(s: &str) -> (r: Result<ChunkType, PngError>)
        ensures
            r is Ok <==> is_type_label(s@),
            r matches Ok(t) ==> t@ == label_bytes(s@),
            r == Err::<ChunkType, PngError>(PngError::InvalidLength) <==> s@.len() != 4,
            r == Err::<ChunkType, PngError>(PngError::InvalidByte) <==> s@.len() == 4
                && !is_type_label(s@),
            r matches Err(e) ==> e == label_error(s@),
    {
        if s.unicode_len() != 4 {
            return Err(PngError::InvalidLength);
        }
        let c0 = s.get_char(0);
        let c1 = s.get_char(1);
        let c2 = s.get_char(2);
        let c3 = s.get_char(3);
        if !(ChunkType::is_valid_char(c0) && ChunkType::is_valid_char(c1)
            && ChunkType::is_valid_char(c2) && ChunkType::is_valid_char(c3)) {
            proof {
                assert(!is_type_label(s@)) by {
                    if is_type_label(s@) {
                        assert(is_alpha_char(s@[0]) && is_alpha_char(s@[1]));
                        assert(is_alpha_char(s@[2]) && is_alpha_char(s@[3]));
                    }
                }
            }
            return Err(PngError::InvalidByte);
        }
        let t = ChunkType { value: [c0 as u8, c1 as u8, c2 as u8, c3 as u8] };
        proof {
            assert forall|i: int| 0 <= i < 4 implies is_alpha_char(#[trigger] s@[i]) by {
                assert(i == 0 || i == 1 || i == 2 || i == 3);
            }
            assert(t@ =~= label_bytes(s@));
        }
        Ok(t)
    }

    /// The four bytes as text; fails on a byte that is not ASCII.
    pub fn to_string(&self) -> (r: Result<String, PngError>)
        ensures
            r is Ok <==> is_ascii_bytes(self@),
            r matches Ok(s) ==> s@ == ascii_text(self@),
            r matches Err(e) ==> e == PngError::EncodingError,
    {
        if !(self.value[0] < 128 && self.value[1] < 128 && self.value[2] < 128 && self.value[3]
            < 128) {
            return Err(PngError::EncodingError);
        }
        proof {
            assert forall|i: int| 0 <= i < 4 implies #[trigger] self@[i] < 128 by {
                assert(i == 0 || i == 1 || i == 2 || i == 3);
            }
            lemma_ascii_decodes(self@);
        }
        match utf8_text(self.value.as_slice()) {
            Some(text) => Ok(text.to_owned()),
            None => Err(PngError::EncodingError),
        }
    }

    /// Whether the type code renders as `label`.
    pub fn matches_label(&self, label: &str) -> (r: bool)
        ensures
            r == names_type(label@, self@),
    {
        if label.unicode_len() != 4 {
            return false;
        }
        let mut i: usize = 0;
        while i < 4
            invariant
                i <= 4,
                label@.len() == 4,
                forall|j: int| 0 <= j < i ==> #[trigger] self@[j] < 128 && label@[j] == self@[j] as char,
            decreases 4 - i,
        {
            let b = self.value[i];
            if b >= 128 || label.get_char(i) != b as char {
                return false;
            }
            i = i + 1;
        }
        assert(label@ =~= ascii_text(self@));
        true
    }
}

impl TryFrom<[u8; 4]> for ChunkType {
    type Error = PngError;

    fn try_from(value: [u8; 4]) -> (r: Result<ChunkType, PngError>) {
        Ok(ChunkType { value })
    }
}

impl vstd::std_specs::convert::TryFromSpecImpl<[u8; 4]> for ChunkType {
    open spec fn obeys_try_from_spec() -> bool {
        true
    }

    closed spec fn try_from_spec(v: [u8; 4]) -> Result<ChunkType, PngError> {
        Ok(ChunkType { value: v })
    }
}

impl core::str::FromStr for ChunkType {
    type Err = PngError;

    fn from_str(s: &str) -> Result<ChunkType, PngError> {
        ChunkType::from_str(s)
    }
}

} // verus!

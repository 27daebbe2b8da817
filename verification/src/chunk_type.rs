//! The 4-byte tag that identifies a chunk's purpose, with the bit-level
//! properties the PNG format assigns to each byte's fifth bit.

use vstd::prelude::*;
use vstd::string::StringSliceAdditionalSpecFns;

use crate::error::PngError;

verus! {

/// Whether `b` is an ASCII letter, upper or lower case.
pub open spec fn spec_is_ascii_letter(b: u8) -> bool {
    (0x41 <= b && b <= 0x5A) || (0x61 <= b && b <= 0x7A)
}

/// Whether bit 5 (bit value `0x20`) of `b` is set.
pub open spec fn spec_bit5_set(b: u8) -> bool {
    b & 0x20 == 0x20
}

/// Whether a 4-byte tag is valid: every byte an ASCII letter, and the
/// reserved bit (bit 5 of the third byte) clear.
pub open spec fn spec_type_valid(t: Seq<u8>) -> bool {
    &&& t.len() == 4
    &&& (forall|i: int| 0 <= i < 4 ==> spec_is_ascii_letter(#[trigger] t[i]))
    &&& !spec_bit5_set(t[2])
}

/// A chunk's 4-byte type tag. Construction never validates the bytes: a
/// conformance check is a separate query, so tags that the PNG format deems
/// non-conformant still round-trip through the container.
#[derive(Debug, Clone, Copy, PartialOrd, Ord)]
pub struct ChunkType {
    bytes: [u8; 4],
}

impl View for ChunkType {
    type V = Seq<u8>;

    closed spec fn view(&self) -> Seq<u8> {
        self.bytes@
    }
}

impl PartialEq for ChunkType {
    /// Tags are equal exactly when their 4 raw bytes are equal.
    fn eq(&self, other: &ChunkType) -> (r: bool) {
        let r = self.bytes[0] == other.bytes[0] && self.bytes[1] == other.bytes[1] && self.bytes[2]
            == other.bytes[2] && self.bytes[3] == other.bytes[3];
        proof {
            if r {
                assert(self.bytes@ =~= other.bytes@);
            } else if self.bytes@ == other.bytes@ {
                assert(self.bytes@[0] == other.bytes@[0]);
                assert(self.bytes@[1] == other.bytes@[1]);
                assert(self.bytes@[2] == other.bytes@[2]);
                assert(self.bytes@[3] == other.bytes@[3]);
            }
        }
        r
    }
}

impl vstd::std_specs::cmp::PartialEqSpecImpl for ChunkType {
    open spec fn obeys_eq_spec() -> bool {
        true
    }

    open spec fn eq_spec(&self, other: &ChunkType) -> bool {
        self@ == other@
    }
}

impl Eq for ChunkType {

}

/// A byte as it appears in a tag's textual form: printable ASCII kept,
/// anything else replaced by a question mark.
pub open spec fn spec_printable(b: u8) -> u8 {
    if 0x20 <= b && b <= 0x7E {
        b
    } else {
        0x3F
    }
}

/// A tag's bytes as text.
pub open spec fn spec_tag_text(t: Seq<u8>) -> Seq<u8> {
    Seq::new(t.len(), |i: int| spec_printable(t[i]))
}

/// A tag's view always holds exactly 4 bytes.
pub broadcast proof fn lemma_chunk_type_view_len(ct: ChunkType)
    ensures
        (#[trigger] ct@).len() == 4,
{
}

/// Whether `b` is an ASCII letter, upper or lower case.
fn is_ascii_letter(b: u8) -> (r: bool)
    ensures
        r == spec_is_ascii_letter(b),
{
    (0x41 <= b && b <= 0x5A) || (0x61 <= b && b <= 0x7A)
}

/// A byte as it appears in a tag's textual form.
fn printable_byte(b: u8) -> (r: u8)
    ensures
        r == spec_printable(b),
{
    if 0x20 <= b && b <= 0x7E {
        b
    } else {
        0x3F
    }
}

impl ChunkType {
    /// Wraps 4 raw bytes verbatim; never fails and never validates.
    pub fn from_bytes(bytes: [u8; 4]) -> (r: ChunkType)
        ensures
            r@ == bytes@,
    {
        ChunkType { bytes }
    }

    /// Parses a tag from a string: fails with `InvalidFormat` unless the
    /// string is exactly 4 bytes long; the bytes themselves are not
    /// validated here.
    pub fn from_string(s: &str) -> (r: Result<ChunkType, PngError>)
        ensures
            match r {
                Ok(ct) => s.spec_bytes().len() == 4 && ct@ == s.spec_bytes(),
                Err(e) => e == PngError::InvalidFormat && s.spec_bytes().len() != 4,
            },
    {
        let b = s.as_bytes();
        if b.len() != 4 {
            Err(PngError::InvalidFormat)
        } else {
            let bytes: [u8; 4] = [b[0], b[1], b[2], b[3]];
            assert(bytes@ =~= s.spec_bytes());
            Ok(ChunkType { bytes })
        }
    }

    /// The 4 raw bytes of the tag.
    pub fn bytes(&self) -> (r: [u8; 4])
        ensures
            r@ == self@,
    {
        self.bytes
    }

    /// The tag's textual form as bytes: the 4 bytes read as ASCII, with
    /// unprintable ones marked.
    pub fn as_text_bytes(&self) -> (r: Vec<u8>)
        ensures
            r@ == spec_tag_text(self@),
    {
        let mut out: Vec<u8> = Vec::new();
        out.push(printable_byte(self.bytes[0]));
        out.push(printable_byte(self.bytes[1]));
        out.push(printable_byte(self.bytes[2]));
        out.push(printable_byte(self.bytes[3]));
        proof {
            assert(out@ =~= spec_tag_text(self@));
        }
        out
    }

    /// The tag's textual form: the 4 bytes read as ASCII, with unprintable
    /// ones marked.
    pub fn as_string(&self) -> (r: String)
        ensures
            vstd::utf8::encode_utf8(r@) == spec_tag_text(self@),
    {
        let text = self.as_text_bytes();
        let ghost tb = text@;
        proof {
            assert(forall|i: int| 0 <= i < tb.len() ==> #[trigger] tb[i] <= 0x7F);
            crate::text::lemma_ascii_bytes_valid_utf8(tb);
        }
        match crate::text::vec_to_utf8_string(text) {
            Some(s) => s,
            None => {
                proof {
                    assert(false);
                }
                String::new()
            },
        }
    }

    /// Whether the chunk is critical for decoding: bit 5 of byte 0 clear.
    pub fn is_critical(&self) -> (r: bool)
        ensures
            r == !spec_bit5_set(self@[0]),
    {
        self.bytes[0] & 0x20 != 0x20
    }

    /// Whether the chunk type is publicly registered: bit 5 of byte 1 clear.
    pub fn is_public(&self) -> (r: bool)
        ensures
            r == !spec_bit5_set(self@[1]),
    {
        self.bytes[1] & 0x20 != 0x20
    }

    /// Whether the chunk type is private: bit 5 of byte 1 set.
    pub fn is_private(&self) -> (r: bool)
        ensures
            r == spec_bit5_set(self@[1]),
    {
        self.bytes[1] & 0x20 == 0x20
    }

    /// Whether the reserved bit is in its valid state: bit 5 of byte 2 clear.
    pub fn is_reserved_bit_valid(&self) -> (r: bool)
        ensures
            r == !spec_bit5_set(self@[2]),
    {
        self.bytes[2] & 0x20 != 0x20
    }

    /// Whether the chunk is safe to copy across edits: bit 5 of byte 3 set.
    pub fn is_safe_to_copy(&self) -> (r: bool)
        ensures
            r == spec_bit5_set(self@[3]),
    {
        self.bytes[3] & 0x20 == 0x20
    }

    /// Whether the tag is valid: all 4 bytes ASCII letters and the reserved
    /// bit clear.
    pub fn is_valid(&self) -> (r: bool)
        ensures
            r == spec_type_valid(self@),
    {
        let r = is_ascii_letter(self.bytes[0]) && is_ascii_letter(self.bytes[1]) && is_ascii_letter(
            self.bytes[2],
        ) && is_ascii_letter(self.bytes[3]) && self.bytes[2] & 0x20 != 0x20;
        proof {
            assert(forall|i: int| 0 <= i < 4 ==> self@[i] == self.bytes@[i]);
        }
        r
    }
}

} // verus!

//! The 4-byte ASCII type tag of a chunk.  The letter case of each byte
//! encodes one boolean property of the chunk.

use vstd::prelude::*;
use vstd::string::StringSliceAdditionalSpecFns;

use crate::error::FormatError;
use crate::text::bytes_to_utf8;
use crate::text::lemma_ascii_bytes_decode;

verus! {

/// True of an ASCII capital letter.
pub open spec fn is_ascii_upper(b: u8) -> bool {
    65 <= b && b <= 90
}

/// True of an ASCII small letter.
pub open spec fn is_ascii_lower(b: u8) -> bool {
    97 <= b && b <= 122
}

/// True of an ASCII letter of either case.
pub open spec fn is_ascii_letter(b: u8) -> bool {
    is_ascii_upper(b) || is_ascii_lower(b)
}

/// True of an ASCII decimal digit.
pub open spec fn is_ascii_digit(b: u8) -> bool {
    48 <= b && b <= 57
}

/// True of an ASCII letter or digit.
pub open spec fn is_ascii_alnum(b: u8) -> bool {
    is_ascii_letter(b) || is_ascii_digit(b)
}

/// A well-formed tag: 4 bytes, each an ASCII letter or digit.  This weaker
/// check is what construction from raw bytes demands, so that tags which
/// are readable but not legal can still be carried through.
pub open spec fn tag_well_formed(t: Seq<u8>) -> bool {
    t.len() == 4 && (forall|i: int| 0 <= i < 4 ==> is_ascii_alnum(#[trigger] t[i]))
}

/// A valid tag: 4 ASCII letters with the third byte a capital (the
/// reserved bit of the format).
pub open spec fn tag_valid(t: Seq<u8>) -> bool {
    t.len() == 4 && (forall|i: int| 0 <= i < 4 ==> is_ascii_letter(#[trigger] t[i]))
        && is_ascii_upper(t[2])
}

/// What building a tag from a string yields: the string's bytes must be
/// exactly 4 ASCII letters.
pub open spec fn spec_tag_from_string(s: Seq<u8>) -> Result<Seq<u8>, FormatError> {
    if s.len() != 4 {
        Err(FormatError::WrongLength)
    } else if !(forall|i: int| 0 <= i < 4 ==> is_ascii_letter(#[trigger] s[i])) {
        Err(FormatError::NotAlphabetic)
    } else {
        Ok(s)
    }
}

/// The 4-byte ASCII identifier naming a chunk's kind.  Immutable once
/// built; every constructor guarantees a well-formed tag.
#[derive(Debug, Clone, Copy, Eq)]
pub struct ChunkType {
    bytes: [u8; 4],
}

impl View for ChunkType {
    type V = Seq<u8>;

    closed spec fn view(&self) -> Seq<u8> {
        self.bytes@
    }
}

/// Exec mirror of `is_ascii_letter`.
fn byte_is_letter(b: u8) -> (r: bool)
    ensures
        r == is_ascii_letter(b),
{
    (65 <= b && b <= 90) || (97 <= b && b <= 122)
}

/// Exec mirror of `is_ascii_alnum`.
fn byte_is_alnum(b: u8) -> (r: bool)
    ensures
        r == is_ascii_alnum(b),
{
    byte_is_letter(b) || (48 <= b && b <= 57)
}

impl ChunkType {
    /// Every tag that can be built is well formed.
    #[verifier::type_invariant]
    pub open spec fn type_inv(self) -> bool {
        tag_well_formed(self@)
    }

    /// Builds a tag from 4 raw bytes; succeeds exactly when every byte is
    /// an ASCII letter or digit.
    pub fn from_bytes(bytes: [u8; 4]) -> (r: Result<ChunkType, FormatError>)
        ensures
            tag_well_formed(bytes@) ==> (r matches Ok(t) && t@ == bytes@),
            !tag_well_formed(bytes@) ==> r == Err::<ChunkType, FormatError>(FormatError::InvalidTag),
    {
        if byte_is_alnum(bytes[0]) && byte_is_alnum(bytes[1]) && byte_is_alnum(bytes[2])
            && byte_is_alnum(bytes[3]) {
            proof {
                assert forall|i: int| 0 <= i < 4 implies is_ascii_alnum(#[trigger] bytes@[i]) by {
                    if i == 0 {
                    } else if i == 1 {
                    } else if i == 2 {
                    } else {
                    }
                }
            }
            Ok(ChunkType { bytes })
        } else {
            Err(FormatError::InvalidTag)
        }
    }

    /// Builds a tag from a string; succeeds exactly when the string is
    /// 4 bytes of ASCII letters.
    pub fn from_string(s: &str) -> (r: Result<ChunkType, FormatError>)
        ensures
            r matches Ok(t) ==> spec_tag_from_string(s.spec_bytes()) == Ok::<Seq<u8>, FormatError>(t@),
            r matches Err(e) ==> spec_tag_from_string(s.spec_bytes()) == Err::<Seq<u8>, FormatError>(e),
    {
        let b = s.as_bytes();
        if b.len() != 4 {
            return Err(FormatError::WrongLength);
        }
        let b0 = *vstd::slice::slice_index_get(b, 0);
        let b1 = *vstd::slice::slice_index_get(b, 1);
        let b2 = *vstd::slice::slice_index_get(b, 2);
        let b3 = *vstd::slice::slice_index_get(b, 3);
        if byte_is_letter(b0) && byte_is_letter(b1) && byte_is_letter(b2) && byte_is_letter(b3) {
            proof {
                assert([b0, b1, b2, b3]@ =~= s.spec_bytes());
                assert forall|i: int|
                    0 <= i < 4 implies is_ascii_alnum(#[trigger] s.spec_bytes()[i]) by {
                    if i == 0 {
                        assert(s.spec_bytes()[0] == b0);
                    } else if i == 1 {
                        assert(s.spec_bytes()[1] == b1);
                    } else if i == 2 {
                        assert(s.spec_bytes()[2] == b2);
                    } else {
                        assert(s.spec_bytes()[3] == b3);
                    }
                }
            }
            let t = ChunkType { bytes: [b0, b1, b2, b3] };
            proof {
                assert(t@ =~= s.spec_bytes());
            }
            Ok(t)
        } else {
            Err(FormatError::NotAlphabetic)
        }
    }

    /// The tag's 4 bytes, in order.
    pub fn bytes(&self) -> (r: [u8; 4])
        ensures
            r@ == self@,
    {
        self.bytes
    }

    /// A legal tag of the format: 4 ASCII letters with the reserved bit
    /// (case of the third byte) valid.
    pub fn is_valid(&self) -> (r: bool)
        ensures
            r == tag_valid(self@),
    {
        let r = byte_is_letter(self.bytes[0]) && byte_is_letter(self.bytes[1])
            && byte_is_letter(self.bytes[2]) && byte_is_letter(self.bytes[3])
            && self.is_reserved_bit_valid();
        proof {
            assert(forall|i: int| 0 <= i < 4 ==> self@[i] == self.bytes@[i]);
        }
        r
    }

    /// The chunk is critical when the first byte is a capital.
    pub fn is_critical(&self) -> (r: bool)
        ensures
            r == is_ascii_upper(self@[0]),
    {
        65 <= self.bytes[0] && self.bytes[0] <= 90
    }

    /// The chunk is public when the second byte is a capital.
    pub fn is_public(&self) -> (r: bool)
        ensures
            r == is_ascii_upper(self@[1]),
    {
        65 <= self.bytes[1] && self.bytes[1] <= 90
    }

    /// The reserved bit is valid when the third byte is a capital.
    pub fn is_reserved_bit_valid(&self) -> (r: bool)
        ensures
            r == is_ascii_upper(self@[2]),
    {
        65 <= self.bytes[2] && self.bytes[2] <= 90
    }

    /// The chunk is safe to copy when the fourth byte is a small letter.
    pub fn is_safe_to_copy(&self) -> (r: bool)
        ensures
            r == is_ascii_lower(self@[3]),
    {
        97 <= self.bytes[3] && self.bytes[3] <= 122
    }

    /// The tag rendered as its 4 bytes read as characters.
    pub fn to_string(&self) -> (r: String)
        ensures
            r@.len() == 4,
            forall|i: int| 0 <= i < 4 ==> r@[i] == self@[i] as char,
    {
        proof {
            use_type_invariant(self);
        }
        let mut v: Vec<u8> = Vec::new();
        v.push(self.bytes[0]);
        v.push(self.bytes[1]);
        v.push(self.bytes[2]);
        v.push(self.bytes[3]);
        proof {
            assert(v@ =~= self@);
            assert forall|i: int| 0 <= i < v@.len() implies #[trigger] v@[i] < 0x80 by {
                assert(is_ascii_alnum(v@[i]));
            }
            lemma_ascii_bytes_decode(v@);
        }
        match bytes_to_utf8(&v) {
            Some(s) => s,
            None => {
                proof {
                    // ASCII bytes are valid UTF-8, so decoding cannot fail.
                    assert(false);
                }
                String::new()
            },
        }
    }
}

impl PartialEq for ChunkType {
    /// Two tags are equal when their 4 bytes are equal.
    fn eq(&self, other: &ChunkType) -> (r: bool) {
        let r = self.bytes[0] == other.bytes[0] && self.bytes[1] == other.bytes[1]
            && self.bytes[2] == other.bytes[2] && self.bytes[3] == other.bytes[3];
        proof {
            if r {
                assert(self@ =~= other@);
            }
        }
        r
    }
}

impl vstd::std_specs::cmp::PartialEqSpecImpl for ChunkType {
    open spec fn obeys_eq_spec() -> bool {
        true
    }

    open spec fn eq_spec(&self, other: &ChunkType) -> bool {
        self@ == other@
    }
}

} // verus!

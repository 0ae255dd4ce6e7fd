//! Strings in modified UTF-8, the string encoding of the class-file format.
//!
//! A string is a sequence of characters of one, two or three bytes. A
//! one-byte character lies between `0x01` and `0x7F`. A two-byte character
//! starts with a byte of the form `110x xxxx`, a three-byte character with a
//! byte of the form `1110 xxxx`, and every further byte of a character has
//! the form `10xx xxxx`. No byte of a string is zero, and none lies between
//! `0xF0` and `0xFF`.

use crate::error::{DecodeError, DecodeErrorKind};
use vstd::prelude::*;

verus! {

/// Whether `byte` can be the second or third byte of a character.
pub open spec fn is_continuation(byte: u8) -> bool {
    0x80 <= byte <= 0xBF
}

/// The number of bytes of the character at the front of `bytes`, or zero if
/// no character stands there.
pub open spec fn character_width(bytes: Seq<u8>) -> nat {
    if bytes.len() >= 1 && 0x01 <= bytes[0] <= 0x7F {
        1
    } else if bytes.len() >= 2 && 0xC0 <= bytes[0] <= 0xDF && is_continuation(bytes[1]) {
        2
    } else if bytes.len() >= 3 && 0xE0 <= bytes[0] <= 0xEF && is_continuation(bytes[1])
        && is_continuation(bytes[2]) {
        3
    } else {
        0
    }
}

/// Whether `bytes` is a string in modified UTF-8: a sequence of characters
/// with nothing left over.
pub open spec fn is_mutf8(bytes: Seq<u8>) -> bool
    decreases bytes.len(),
{
    if bytes.len() == 0 {
        true
    } else {
        let width = character_width(bytes);
        width > 0 && is_mutf8(bytes.skip(width as int))
    }
}

/// A string all of whose bytes lie between `0x01` and `0x7F` is valid.
pub proof fn lemma_ascii_is_mutf8(bytes: Seq<u8>)
    requires
        forall|i: int| 0 <= i < bytes.len() ==> 0x01 <= #[trigger] bytes[i] <= 0x7F,
    ensures
        is_mutf8(bytes),
    decreases bytes.len(),
{
    if bytes.len() > 0 {
        lemma_ascii_is_mutf8(bytes.skip(1));
    }
}

/// Whether `bytes` is a string in modified UTF-8.
pub fn is_valid(bytes: &[u8]) -> (valid: bool)
    ensures
        valid == is_mutf8(bytes@),
{
    let mut i: usize = 0;
    assert(bytes@.skip(0) == bytes@);
    while i < bytes.len()
        invariant
            i <= bytes@.len(),
            is_mutf8(bytes@) == is_mutf8(bytes@.skip(i as int)),
        decreases bytes@.len() - i,
    {
        let ghost rest = bytes@.skip(i as int);
        let left = bytes.len() - i;
        let first = bytes[i];
        let width: usize = if 0x01 <= first && first <= 0x7F {
            1
        } else if left >= 2 && 0xC0 <= first && first <= 0xDF && 0x80 <= bytes[i + 1] && bytes[i
            + 1] <= 0xBF {
            2
        } else if left >= 3 && 0xE0 <= first && first <= 0xEF && 0x80 <= bytes[i + 1] && bytes[i
            + 1] <= 0xBF && 0x80 <= bytes[i + 2] && bytes[i + 2] <= 0xBF {
            3
        } else {
            0
        };
        assert(width == character_width(rest));
        if width == 0 {
            return false;
        }
        assert(rest.skip(width as int) == bytes@.skip(i + width));
        i += width;
    }
    true
}

/// A borrowed string in modified UTF-8. Its bytes were checked when it was
/// made.
#[derive(Debug, Clone, Copy, PartialEq, Eq, PartialOrd, Ord, Hash)]
pub struct MStr<'a> {
    bytes: &'a [u8],
}

impl<'a> View for MStr<'a> {
    type V = Seq<u8>;

    closed spec fn view(&self) -> Seq<u8> {
        self.bytes@
    }
}

impl<'a> MStr<'a> {
    #[verifier::type_invariant]
    spec fn checked(self) -> bool {
        is_mutf8(self.bytes@)
    }

    /// The string that `bytes` holds, if they are valid modified UTF-8.
    pub fn from_mutf8(bytes: &'a [u8]) -> (r: Result<MStr<'a>, DecodeError>)
        ensures
            match r {
                Ok(s) => is_mutf8(bytes@) && s@ == bytes@,
                Err(e) => !is_mutf8(bytes@) && e == (DecodeError {
                    kind: DecodeErrorKind::InvalidMutf8,
                    position: None,
                    context: crate::error::Context::Nowhere,
                }),
            },
    {
        if is_valid(bytes) {
            Ok(MStr { bytes })
        } else {
            Err(DecodeError::new(DecodeErrorKind::InvalidMutf8))
        }
    }

    /// The bytes of the string.
    pub fn as_bytes(&self) -> (r: &'a [u8])
        ensures
            r@ == self@,
            is_mutf8(r@),
    {
        proof {
            use_type_invariant(self);
        }
        self.bytes
    }

    /// The number of bytes of the string.
    pub fn len(&self) -> (r: usize)
        ensures
            r == self@.len(),
    {
        self.bytes.len()
    }
}

} // verus!

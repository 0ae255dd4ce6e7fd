//! The fixed fields at the start of a class.

use crate::bigendian::{be_bytes, be_value, write_unsigned};
use crate::error::{DecodeError, EncodeError};
use crate::reader::decoding::{Cursor, Decode, Decoder};
use crate::writer::encoding::{Encode, Encoder};
use vstd::prelude::*;

verus! {

/// The four bytes that every class file starts with.
pub const MAGIC: u32 = 0xCAFE_BABE;

/// The version of the class-file format that a class is written in.
#[derive(Debug, Clone, Copy, PartialEq, Eq, Structural)]
pub struct Version {
    pub major: u16,
    pub minor: u16,
}

/// The access flags of a class, a field or a method, as the sixteen bits
/// that they are written as.
#[derive(Debug, Clone, Copy, PartialEq, Eq, Structural)]
pub struct AccessFlags {
    pub bits: u16,
}

impl AccessFlags {
    pub fn from_bits(bits: u16) -> (r: AccessFlags)
        ensures
            r.bits == bits,
    {
        AccessFlags { bits }
    }

    pub fn bits(&self) -> (r: u16)
        ensures
            r == self.bits,
    {
        self.bits
    }
}

impl<'a> Decode<'a> for AccessFlags {
    open spec fn decodes(before: Cursor, after: Cursor, r: Result<AccessFlags, DecodeError>) -> bool {
        match r {
            Ok(flags) => before.took(after, 2) && flags.bits == be_value(before.front(2)),
            Err(e) => before.ran_out(after, 2, e),
        }
    }

    fn decode(decoder: &mut Decoder<'a>) -> (r: Result<AccessFlags, DecodeError>) {
        let bits = decoder.read::<u16>()?;
        Ok(AccessFlags { bits })
    }
}

impl Encode for AccessFlags {
    open spec fn encoding(&self) -> Seq<u8> {
        be_bytes(self.bits as nat, 2)
    }

    fn encode<E: Encoder>(&self, encoder: &mut E) -> (r: Result<(), EncodeError>) {
        let bytes = write_unsigned(self.bits as u128, 2);
        encoder.write_bytes(bytes.as_slice())
    }
}

} // verus!

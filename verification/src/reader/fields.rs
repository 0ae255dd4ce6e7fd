//! The field table of a class.

use crate::bigendian::be_value;
use crate::error::{Context, DecodeError};
use crate::header::AccessFlags;
use crate::reader::attributes::{scan_attributes, skip_attributes, Attributes};
use crate::reader::cpool::{scan_part, Failure, Index, Part, Utf8};
use crate::reader::decoding::{Counted, Cursor, Decode, DecodeCounted, Decoder};
use vstd::prelude::*;

verus! {

/// The length of the field at the front of `bytes`: six bytes of flags, name
/// and descriptor, and an attribute table. Whether name and descriptor are
/// valid indices is not looked at.
pub open spec fn scan_field(bytes: Seq<u8>) -> Result<nat, Failure> {
    if bytes.len() < 6 {
        Err(Failure::Eoi(0))
    } else {
        match scan_attributes(bytes.skip(6)) {
            Ok(n) => Ok(6 + n),
            Err(f) => Err(f.shifted(6)),
        }
    }
}

/// The length of `n` fields, one after the other, at the front of `bytes`,
/// or the failure of the first of them that is not there.
pub open spec fn scan_fields_from(bytes: Seq<u8>, n: nat) -> Result<nat, Failure>
    decreases n,
{
    if n == 0 {
        Ok(0)
    } else {
        match scan_field(bytes) {
            Err(f) => Err(f),
            Ok(k) => match scan_fields_from(bytes.skip(k as int), (n - 1) as nat) {
                Ok(m) => Ok(k + m),
                Err(f) => Err(f.shifted(k)),
            },
        }
    }
}

/// The length of the field table at the front of `bytes`: a two-byte count
/// and that many fields.
pub open spec fn scan_fields(bytes: Seq<u8>) -> Result<nat, Failure> {
    if bytes.len() < 2 {
        Err(Failure::Eoi(0))
    } else {
        match scan_fields_from(bytes.skip(2), be_value(bytes.take(2))) {
            Ok(n) => Ok(2 + n),
            Err(f) => Err(f.shifted(2)),
        }
    }
}

/// What a [`Field`] stands for.
pub struct FieldView {
    pub access_flags: AccessFlags,
    /// The number of the entry of the constant pool that holds the name.
    pub name: u16,
    /// The number of the entry of the constant pool that holds the descriptor.
    pub descriptor: u16,
    /// The attributes, not decoded yet.
    pub attributes: Counted,
}

/// A field of a class.
#[derive(Debug)]
pub struct Field<'a> {
    access_flags: AccessFlags,
    name: Index<Utf8<'a>>,
    descriptor: Index<Utf8<'a>>,
    attributes: Attributes<'a>,
}

impl<'a> View for Field<'a> {
    type V = FieldView;

    closed spec fn view(&self) -> FieldView {
        FieldView {
            access_flags: self.access_flags,
            name: self.name@,
            descriptor: self.descriptor@,
            attributes: self.attributes@,
        }
    }
}

impl<'a> Field<'a> {
    pub fn access_flags(&self) -> (r: AccessFlags)
        ensures
            r == self@.access_flags,
    {
        self.access_flags
    }

    pub fn name(&self) -> (r: Index<Utf8<'a>>)
        ensures
            r@ == self@.name,
    {
        self.name
    }

    pub fn descriptor(&self) -> (r: Index<Utf8<'a>>)
        ensures
            r@ == self@.descriptor,
    {
        self.descriptor
    }

    /// A fresh walk over the attributes of the field.
    pub fn attribute_indices(&self) -> (r: Attributes<'a>)
        ensures
            r@ == self@.attributes,
    {
        self.attributes.clone()
    }
}

/// Why the field at the front of `bytes` cannot be decoded, if it cannot:
/// it is not all there, or its name or its descriptor is the index zero.
pub open spec fn field_failure(bytes: Seq<u8>) -> Option<Failure> {
    if bytes.len() < 2 {
        Some(Failure::Eoi(0))
    } else {
        match scan_part(bytes.skip(2), Part::Reference) {
            Err(f) => Some(f.shifted(2)),
            Ok(_) => match scan_part(bytes.skip(4), Part::Reference) {
                Err(f) => Some(f.shifted(4)),
                Ok(_) => match scan_attributes(bytes.skip(6)) {
                    Err(f) => Some(f.shifted(6)),
                    Ok(_) => None,
                },
            },
        }
    }
}

impl<'a> Decode<'a> for Field<'a> {
    /// A field is decoded where one stands whose name and descriptor are not
    /// the index zero. It then holds what was read, and its attributes start
    /// behind their count.
    open spec fn decodes(before: Cursor, after: Cursor, r: Result<Field<'a>, DecodeError>) -> bool {
        match field_failure(before.remaining) {
            None => r matches Ok(field) && field@ == (FieldView {
                access_flags: AccessFlags { bits: be_value(before.front(2)) as u16 },
                name: be_value(before.remaining.subrange(2, 4)) as u16,
                descriptor: be_value(before.remaining.subrange(4, 6)) as u16,
                attributes: Counted {
                    cursor: before.skip(8),
                    left: be_value(before.remaining.subrange(6, 8)),
                },
            }) && after == before.skip(scan_field(before.remaining)->Ok_0 as int),
            Some(f) => r matches Err(e) && e == f.at(before),
        }
    }

    fn decode(decoder: &mut Decoder<'a>) -> (r: Result<Field<'a>, DecodeError>) {
        let mut cursor = decoder.clone();
        let r = Self::parse(&mut cursor);
        if r.is_ok() {
            *decoder = cursor;
        }
        r
    }
}

impl<'a> Field<'a> {
    /// Decodes a field, wherever that ends.
    fn parse(decoder: &mut Decoder<'a>) -> (r: Result<Field<'a>, DecodeError>)
        ensures
            <Self as Decode<'a>>::decodes(old(decoder)@, final(decoder)@, r),
    {
        let ghost before = decoder@;
        let _ = decoder.file_position();
        let access_flags = decoder.read::<AccessFlags>()?;
        let name = decoder.read::<Index<Utf8<'a>>>()?;
        proof {
            assert(before.skip(2).front(2) == before.remaining.subrange(2, 4));
            assert(before.remaining.skip(2).skip(2) == before.remaining.skip(4));
            assert(decoder@ == before.skip(4));
        }
        let descriptor = decoder.read::<Index<Utf8<'a>>>()?;
        proof {
            assert(before.skip(4).front(2) == before.remaining.subrange(4, 6));
            assert(before.remaining.skip(4).skip(2) == before.remaining.skip(6));
            assert(decoder@ == before.skip(6));
        }
        let mut attributes = decoder.clone();
        let count = attributes.read::<u16>();
        match skip_attributes(decoder) {
            Ok(()) => {},
            Err(e) => {
                return Err(e);
            },
        }
        proof {
            let n = scan_attributes(before.skip(6).remaining)->Ok_0 as int;
            assert(before.remaining.skip(6).skip(n) == before.remaining.skip(6 + n));
            assert(before.skip(6).front(2) == before.remaining.subrange(6, 8));
            assert(before.remaining.skip(6).skip(2) == before.remaining.skip(8));
        }
        match count {
            Ok(count) => Ok(
                Field {
                    access_flags,
                    name,
                    descriptor,
                    attributes: DecodeCounted::new(attributes, count),
                },
            ),
            Err(e) => Err(e),
        }
    }
}

/// The fields of a class, decoded one by one on demand.
#[derive(Debug)]
pub struct Fields<'a> {
    decoder: Decoder<'a>,
}

impl<'a> View for Fields<'a> {
    type V = Cursor;

    /// The part of the input that holds the fields which have not been
    /// handed out yet.
    closed spec fn view(&self) -> Cursor {
        self.decoder@
    }
}

impl<'a> Clone for Fields<'a> {
    fn clone(&self) -> (r: Fields<'a>)
        ensures
            r@ == self@,
    {
        Fields { decoder: self.decoder.clone() }
    }
}

impl<'a> Fields<'a> {
    /// The next field, or `None` if there is none or if what stands there
    /// does not decode. The walk then stays where it is, so that once `None`
    /// has been handed out nothing else is.
    pub fn next(&mut self) -> (r: Option<Field<'a>>)
        ensures
            match r {
                Some(field) => Field::decodes(old(self)@, final(self)@, Ok(field)),
                None => field_failure(old(self)@.remaining) is Some && final(self)@ == old(self)@,
            },
    {
        match self.decoder.read::<Field<'a>>() {
            Ok(field) => Some(field),
            Err(_) => None,
        }
    }
}

impl<'a> Decode<'a> for Fields<'a> {
    /// The field table is walked through once to find its end. The result
    /// is limited to the fields, without the count in front of them.
    open spec fn decodes(before: Cursor, after: Cursor, r: Result<Fields<'a>, DecodeError>) -> bool {
        match scan_fields(before.remaining) {
            Ok(n) => r matches Ok(fields) && fields@ == (Cursor {
                remaining: before.remaining.subrange(2, n as int),
                position: (before.position + 2) as usize,
                context: Context::Fields,
            }) && after == before.skip(n as int),
            Err(f) => r matches Err(e) && e == f.at(before),
        }
    }

    fn decode(decoder: &mut Decoder<'a>) -> (r: Result<Fields<'a>, DecodeError>) {
        let mut cursor = decoder.clone();
        let r = Self::parse(&mut cursor);
        if r.is_ok() {
            *decoder = cursor;
        }
        r
    }
}

impl<'a> Fields<'a> {
    /// Decodes a field table, wherever that ends.
    fn parse(decoder: &mut Decoder<'a>) -> (r: Result<Fields<'a>, DecodeError>)
        ensures
            <Self as Decode<'a>>::decodes(old(decoder)@, final(decoder)@, r),
    {
        let ghost before = decoder@;
        let mut field_decoder = decoder.clone();
        field_decoder.advance(2)?;
        skip_fields(decoder)?;
        let field_length = field_decoder.bytes_remaining() - decoder.bytes_remaining();
        proof {
            let n = scan_fields(before.remaining)->Ok_0 as int;
            assert(before.remaining.skip(2).take(n - 2) == before.remaining.subrange(2, n));
        }
        match field_decoder.limit(field_length, Context::Fields) {
            Ok(decoder) => Ok(Fields { decoder }),
            Err(e) => Err(e),
        }
    }
}

/// Skips one field.
fn skip_field(decoder: &mut Decoder) -> (r: Result<(), DecodeError>)
    ensures
        match scan_field(old(decoder)@.remaining) {
            Ok(n) => r is Ok && n <= old(decoder)@.remaining.len()
                && final(decoder)@ == old(decoder)@.skip(n as int),
            Err(f) => r matches Err(e) && e == f.at(old(decoder)@),
        },
{
    let ghost before = decoder@;
    let _ = decoder.file_position();
    // skipping the access flags, name and descriptor
    decoder.advance(6)?;
    skip_attributes(decoder)?;
    proof {
        let n = scan_attributes(before.remaining.skip(6))->Ok_0 as int;
        assert(before.remaining.skip(6).skip(n) == before.remaining.skip(6 + n));
    }
    Ok(())
}

/// Skips a field table: its count and all the fields that the count asks
/// for. If the table is not all there the decoder stays where it is.
pub fn skip_fields(decoder: &mut Decoder) -> (r: Result<(), DecodeError>)
    ensures
        match scan_fields(old(decoder)@.remaining) {
            Ok(n) => r is Ok && 2 <= n <= old(decoder)@.remaining.len()
                && final(decoder)@ == old(decoder)@.skip(n as int),
            Err(f) => r matches Err(e) && e == f.at(old(decoder)@)
                && final(decoder)@ == old(decoder)@,
        },
{
    let mut cursor = decoder.clone();
    let r = walk_fields(&mut cursor);
    if r.is_ok() {
        *decoder = cursor;
    }
    r
}

/// Walks through a field table, as far as it is there.
fn walk_fields(decoder: &mut Decoder) -> (r: Result<(), DecodeError>)
    ensures
        match scan_fields(old(decoder)@.remaining) {
            Ok(n) => r is Ok && 2 <= n <= old(decoder)@.remaining.len()
                && final(decoder)@ == old(decoder)@.skip(n as int),
            Err(f) => r matches Err(e) && e == f.at(old(decoder)@),
        },
{
    let ghost before = decoder@;
    let _ = decoder.file_position();
    let count = decoder.read::<u16>()?;
    let ghost start = decoder@;
    let ghost total = scan_fields_from(start.remaining, count as nat);
    let ghost mut k: int = 0;
    let mut left = count;
    proof {
        assert(start.remaining.skip(0) == start.remaining);
    }
    while left > 0
        invariant
            0 <= k <= start.remaining.len(),
            start.position + start.remaining.len() <= usize::MAX,
            decoder@ == start.skip(k),
            total == scan_fields_from(start.remaining, count as nat),
            match scan_fields_from(decoder@.remaining, left as nat) {
                Ok(m) => total == Ok::<nat, Failure>((k + m) as nat),
                Err(f) => total == Err::<nat, Failure>(f.shifted(k as nat)),
            },
            before.remaining.len() >= 2,
            start == before.skip(2),
            before == old(decoder)@,
            before.position + before.remaining.len() <= usize::MAX,
            count == be_value(before.remaining.take(2)),
        decreases left,
    {
        let ghost here = decoder@;
        match skip_field(decoder) {
            Ok(()) => {},
            Err(e) => {
                return Err(e);
            },
        }
        proof {
            let n = scan_field(here.remaining)->Ok_0 as int;
            assert(start.remaining.skip(k).skip(n) == start.remaining.skip(k + n));
            k = k + n;
        }
        left -= 1;
    }
    proof {
        assert(before.remaining.skip(2).skip(k) == before.remaining.skip(2 + k));
    }
    Ok(())
}

} // verus!

//! Attributes as they stand in the input: a name, a length, and that many
//! bytes of content. The content is handed out as it is, and decoded on
//! demand for the attributes whose names are known.

use crate::bigendian::be_value;
use crate::error::{Context, DecodeError, DecodeErrorKind};
use crate::reader::cpool::{lookup, scan_part, ConstantPool, Failure, Index, Item, Part, Utf8};
use crate::reader::decoding::{Cursor, Decode, DecodeCounted, Decoder};
use vstd::prelude::*;

verus! {

/// The length of the attribute at the front of `bytes`, if its name, its
/// length and as many bytes of content as the length asks for are there.
/// Whether the name is a valid index is not looked at.
pub open spec fn scan_attribute(bytes: Seq<u8>) -> Result<nat, Failure> {
    if bytes.len() < 2 {
        Err(Failure::Eoi(0))
    } else if bytes.len() < 6 {
        Err(Failure::Eoi(2))
    } else {
        let length = be_value(bytes.subrange(2, 6));
        if bytes.len() < 6 + length {
            Err(Failure::Eoi(6))
        } else {
            Ok(6 + length)
        }
    }
}

/// The length of `n` attributes, one after the other, at the front of
/// `bytes`, or the failure of the first of them that is not there.
pub open spec fn scan_attributes_from(bytes: Seq<u8>, n: nat) -> Result<nat, Failure>
    decreases n,
{
    if n == 0 {
        Ok(0)
    } else {
        match scan_attribute(bytes) {
            Err(f) => Err(f),
            Ok(k) => match scan_attributes_from(bytes.skip(k as int), (n - 1) as nat) {
                Ok(m) => Ok(k + m),
                Err(f) => Err(f.shifted(k)),
            },
        }
    }
}

/// The length of the attribute table at the front of `bytes`: a two-byte
/// count and that many attributes.
pub open spec fn scan_attributes(bytes: Seq<u8>) -> Result<nat, Failure> {
    if bytes.len() < 2 {
        Err(Failure::Eoi(0))
    } else {
        match scan_attributes_from(bytes.skip(2), be_value(bytes.take(2))) {
            Ok(n) => Ok(2 + n),
            Err(f) => Err(f.shifted(2)),
        }
    }
}

/// Skips one attribute.
fn skip_attribute(decoder: &mut Decoder) -> (r: Result<(), DecodeError>)
    ensures
        match scan_attribute(old(decoder)@.remaining) {
            Ok(n) => r is Ok && n <= old(decoder)@.remaining.len()
                && final(decoder)@ == old(decoder)@.skip(n as int),
            Err(f) => r matches Err(e) && e == f.at(old(decoder)@),
        },
{
    let ghost before = decoder@;
    let _ = decoder.file_position();
    decoder.advance(2)?;
    let length = decoder.read::<u32>()?;
    proof {
        assert(before.skip(2).front(4) == before.remaining.subrange(2, 6));
    }
    decoder.advance(length as usize)?;
    proof {
        assert(before.remaining.skip(2).skip(4).skip(length as int) == before.remaining.skip(
            6 + length,
        ));
    }
    Ok(())
}

/// Skips an attribute table: its count and all the attributes that the
/// count asks for. If the table is not all there the decoder stays where it
/// is.
pub fn skip_attributes(decoder: &mut Decoder) -> (r: Result<(), DecodeError>)
    ensures
        match scan_attributes(old(decoder)@.remaining) {
            Ok(n) => r is Ok && n <= old(decoder)@.remaining.len()
                && final(decoder)@ == old(decoder)@.skip(n as int),
            Err(f) => r matches Err(e) && e == f.at(old(decoder)@)
                && final(decoder)@ == old(decoder)@,
        },
{
    let mut cursor = decoder.clone();
    let r = walk_attributes(&mut cursor);
    if r.is_ok() {
        *decoder = cursor;
    }
    r
}

/// Walks through an attribute table, as far as it is there.
fn walk_attributes(decoder: &mut Decoder) -> (r: Result<(), DecodeError>)
    ensures
        match scan_attributes(old(decoder)@.remaining) {
            Ok(n) => r is Ok && n <= old(decoder)@.remaining.len()
                && final(decoder)@ == old(decoder)@.skip(n as int),
            Err(f) => r matches Err(e) && e == f.at(old(decoder)@),
        },
{
    let ghost before = decoder@;
    let _ = decoder.file_position();
    let count = decoder.read::<u16>()?;
    let ghost start = decoder@;
    let ghost total = scan_attributes_from(start.remaining, count as nat);
    let ghost mut k: int = 0;
    let mut left = count;
    proof {
        assert(start.remaining.skip(0) == start.remaining);
    }
    while left > 0
        invariant
            0 <= k <= start.remaining.len(),
            start.position + start.remaining.len() <= usize::MAX,
            decoder@ == start.skip(k),
            total == scan_attributes_from(start.remaining, count as nat),
            match scan_attributes_from(decoder@.remaining, left as nat) {
                Ok(m) => total == Ok::<nat, Failure>((k + m) as nat),
                Err(f) => total == Err::<nat, Failure>(f.shifted(k as nat)),
            },
            before.remaining.len() >= 2,
            start == before.skip(2),
            before == old(decoder)@,
            before.position + before.remaining.len() <= usize::MAX,
            count == be_value(before.remaining.take(2)),
        decreases left,
    {
        let ghost here = decoder@;
        match skip_attribute(decoder) {
            Ok(()) => {},
            Err(e) => {
                return Err(e);
            },
        }
        proof {
            let n = scan_attribute(here.remaining)->Ok_0 as int;
            assert(start.remaining.skip(k).skip(n) == start.remaining.skip(k + n));
            k = k + n;
        }
        left -= 1;
    }
    proof {
        assert(before.remaining.skip(2).skip(k) == before.remaining.skip(2 + k));
    }
    Ok(())
}

/// What an [`Attribute`] stands for.
pub struct AttributeView {
    /// The number of the entry of the constant pool that holds the name.
    pub name: u16,
    /// The content: its bytes and where in the file they stand.
    pub content: Cursor,
}

/// One attribute: the number of its name in the constant pool and its
/// content. The content is kept as it stands in the input and looked into
/// only when it is asked for.
#[derive(Debug)]
pub struct Attribute<'a> {
    name: Index<Utf8<'a>>,
    content: Decoder<'a>,
}

impl<'a> View for Attribute<'a> {
    type V = AttributeView;

    closed spec fn view(&self) -> AttributeView {
        AttributeView { name: self.name@, content: self.content@ }
    }
}

impl<'a> Clone for Attribute<'a> {
    fn clone(&self) -> (r: Attribute<'a>)
        ensures
            r@ == self@,
    {
        Attribute { name: self.name, content: self.content.clone() }
    }
}

/// What an attribute holds, for the attributes whose content is known.
#[derive(Debug, Clone, Copy, PartialEq, Eq)]
pub enum AttributeContent<'a> {
    /// The value of a constant field.
    ConstantValue { value: Index<Item<'a>> },
    /// The name of the file that the class was compiled from.
    SourceFile { source_file: Index<Utf8<'a>> },
    Deprecated,
    Synthetic,
}

/// The name `ConstantValue`.
pub open spec fn constant_value_name() -> Seq<u8> {
    seq![67u8, 111u8, 110u8, 115u8, 116u8, 97u8, 110u8, 116u8, 86u8, 97u8, 108u8, 117u8, 101u8]
}

/// The name `SourceFile`.
pub open spec fn source_file_name() -> Seq<u8> {
    seq![83u8, 111u8, 117u8, 114u8, 99u8, 101u8, 70u8, 105u8, 108u8, 101u8]
}

/// The name `Deprecated`.
pub open spec fn deprecated_name() -> Seq<u8> {
    seq![68u8, 101u8, 112u8, 114u8, 101u8, 99u8, 97u8, 116u8, 101u8, 100u8]
}

/// The name `Synthetic`.
pub open spec fn synthetic_name() -> Seq<u8> {
    seq![83u8, 121u8, 110u8, 116u8, 104u8, 101u8, 116u8, 105u8, 99u8]
}

/// The failure of an attribute whose name is not known.
pub open spec fn unknown_name() -> DecodeError {
    DecodeError {
        kind: DecodeErrorKind::UnknownAttributeName,
        position: None,
        context: Context::AttributeContent,
    }
}

/// Whether an attribute with name `name` and content `content` may be read
/// as `r`. The name decides what the content has to be; content that is
/// longer than what the name asks for is not looked at.
pub open spec fn reads_as<'a>(
    name: Seq<u8>,
    content: Cursor,
    r: Result<AttributeContent<'a>, DecodeError>,
) -> bool {
    if name == constant_value_name() {
        match scan_part(content.remaining, Part::Reference) {
            Ok(_) => r matches Ok(AttributeContent::ConstantValue { value }) && value@ == be_value(
                content.front(2),
            ),
            Err(f) => r matches Err(e) && e == f.at(content),
        }
    } else if name == source_file_name() {
        match scan_part(content.remaining, Part::Reference) {
            Ok(_) => r matches Ok(AttributeContent::SourceFile { source_file }) && source_file@
                == be_value(content.front(2)),
            Err(f) => r matches Err(e) && e == f.at(content),
        }
    } else if name == deprecated_name() {
        r matches Ok(AttributeContent::Deprecated)
    } else if name == synthetic_name() {
        r matches Ok(AttributeContent::Synthetic)
    } else {
        r matches Err(e) && e == unknown_name()
    }
}

/// Whether two byte strings are the same.
fn same_bytes(a: &[u8], b: &[u8]) -> (r: bool)
    ensures
        r == (a@ == b@),
{
    if a.len() != b.len() {
        return false;
    }
    let mut i: usize = 0;
    while i < a.len()
        invariant
            i <= a@.len(),
            a@.len() == b@.len(),
            forall|j: int| 0 <= j < i ==> a@[j] == b@[j],
        decreases a@.len() - i,
    {
        if a[i] != b[i] {
            return false;
        }
        i += 1;
    }
    assert(a@ =~= b@);
    true
}

impl<'a> Attribute<'a> {
    /// The number of the entry of the constant pool that holds the name.
    pub fn name(&self) -> (r: Index<Utf8<'a>>)
        ensures
            r@ == self@.name,
    {
        self.name
    }

    /// The bytes of the content, whatever they mean.
    pub fn content(&self) -> (r: &'a [u8])
        ensures
            r@ == self@.content.remaining,
    {
        self.content.buf()
    }

    /// The number of bytes of the content.
    pub fn length(&self) -> (r: usize)
        ensures
            r == self@.content.remaining.len(),
    {
        self.content.bytes_remaining()
    }

    /// What the attribute holds. The name is looked up in `pool`, and the
    /// content is decoded as what the name says it is. Nothing is kept: the
    /// attribute can be read again, and again in another way by its bytes.
    pub fn read_content(&self, pool: &ConstantPool<'a>) -> (r: Result<
        AttributeContent<'a>,
        DecodeError,
    >)
        ensures
            match lookup::<Utf8<'a>>(pool@, self@.name) {
                Ok(name) => reads_as(name.content@, self@.content, r),
                Err(e) => r matches Err(f) && f == e,
            },
    {
        let name = pool.get(self.name)?.content.as_bytes();
        let mut decoder = self.content.clone();
        let constant_value = [67u8, 111u8, 110u8, 115u8, 116u8, 97u8, 110u8, 116u8, 86u8, 97u8, 108u8, 117u8, 101u8];
        let source_file = [83u8, 111u8, 117u8, 114u8, 99u8, 101u8, 70u8, 105u8, 108u8, 101u8];
        let deprecated = [68u8, 101u8, 112u8, 114u8, 101u8, 99u8, 97u8, 116u8, 101u8, 100u8];
        let synthetic = [83u8, 121u8, 110u8, 116u8, 104u8, 101u8, 116u8, 105u8, 99u8];
        proof {
            assert(constant_value@ =~= constant_value_name());
            assert(source_file@ =~= source_file_name());
            assert(deprecated@ =~= deprecated_name());
            assert(synthetic@ =~= synthetic_name());
        }
        if same_bytes(name, constant_value.as_slice()) {
            let value = decoder.read::<Index<Item<'a>>>()?;
            Ok(AttributeContent::ConstantValue { value })
        } else if same_bytes(name, source_file.as_slice()) {
            let source_file = decoder.read::<Index<Utf8<'a>>>()?;
            Ok(AttributeContent::SourceFile { source_file })
        } else if same_bytes(name, deprecated.as_slice()) {
            Ok(AttributeContent::Deprecated)
        } else if same_bytes(name, synthetic.as_slice()) {
            Ok(AttributeContent::Synthetic)
        } else {
            Err(
                DecodeError::with_context(
                    DecodeErrorKind::UnknownAttributeName,
                    Context::AttributeContent,
                ),
            )
        }
    }
}

/// Why the attribute at the front of `bytes` cannot be decoded, if it
/// cannot: it is not all there, or its name is the index zero.
pub open spec fn attribute_failure(bytes: Seq<u8>) -> Option<Failure> {
    match scan_part(bytes, Part::Reference) {
        Err(f) => Some(f),
        Ok(_) => match scan_attribute(bytes) {
            Err(f) => Some(f),
            Ok(_) => None,
        },
    }
}

impl<'a> Decode<'a> for Attribute<'a> {
    /// An attribute is decoded where one stands whose name is not the index
    /// zero. It then holds the name and the content, which is limited to the
    /// bytes that the length asks for and has a context of its own.
    open spec fn decodes(before: Cursor, after: Cursor, r: Result<Attribute<'a>, DecodeError>) -> bool {
        match attribute_failure(before.remaining) {
            None => r matches Ok(attribute) && attribute@ == (AttributeView {
                name: be_value(before.front(2)) as u16,
                content: before.skip(6).prefix(
                    scan_attribute(before.remaining)->Ok_0 - 6,
                    Context::AttributeContent,
                ),
            }) && after == before.skip(scan_attribute(before.remaining)->Ok_0 as int),
            Some(f) => r matches Err(e) && e == f.at(before),
        }
    }

    fn decode(decoder: &mut Decoder<'a>) -> (r: Result<Attribute<'a>, DecodeError>) {
        let mut cursor = decoder.clone();
        let r = Self::parse(&mut cursor);
        if r.is_ok() {
            *decoder = cursor;
        }
        r
    }
}

impl<'a> Attribute<'a> {
    /// Decodes an attribute, wherever that ends.
    fn parse(decoder: &mut Decoder<'a>) -> (r: Result<Attribute<'a>, DecodeError>)
        ensures
            <Self as Decode<'a>>::decodes(old(decoder)@, final(decoder)@, r),
    {
        let ghost before = decoder@;
        let _ = decoder.file_position();
        let name = decoder.read::<Index<Utf8<'a>>>()?;
        let length = decoder.read::<u32>()?;
        proof {
            assert(before.skip(2).front(4) == before.remaining.subrange(2, 6));
            assert(before.remaining.skip(2).skip(4) == before.remaining.skip(6));
            assert(decoder@ == before.skip(6));
        }
        let content = decoder.limit(length as usize, Context::AttributeContent)?;
        let _ = decoder.advance(length as usize);
        proof {
            assert(before.remaining.skip(6).skip(length as int) == before.remaining.skip(
                6 + length,
            ));
        }
        Ok(Attribute { name, content })
    }
}

/// The attributes of a class, a field or a method, decoded one by one on
/// demand.
pub type Attributes<'a> = DecodeCounted<'a, Attribute<'a>, u16>;

} // verus!

//! The constant pool: the table of literals and cross-references that the rest
//! of a class points into.
//!
//! Entries are numbered from one. An eight-byte number takes up two numbers;
//! the second of them names no entry. An entry refers to other entries by
//! their numbers.

pub mod readback;
pub mod value;

use crate::bigendian::{be_bytes, be_value, unsigned};
use crate::bigendian::{lemma_bytes_of_value, lemma_span_values, write_signed, write_unsigned};
use crate::error::{Context, DecodeError, DecodeErrorKind};
use crate::mutf8::{is_mutf8, MStr};
use crate::reader::cpool::value::ToValue;
use crate::reader::decoding::{Cursor, Decode, Decoder};
use crate::writer::encoding::{Encode, Encoder};
use crate::error::EncodeError;
use std::marker::PhantomData;
use vstd::prelude::*;

verus! {

/// The number of an entry of the constant pool, for an entry of kind `T`.
/// The number is never zero.
#[derive(Debug, PartialEq, Eq)]
pub struct Index<T> {
    index: u16,
    mark: PhantomData<T>,
}

impl<T> View for Index<T> {
    type V = u16;

    closed spec fn view(&self) -> u16 {
        self.index
    }
}

impl<T> Clone for Index<T> {
    fn clone(&self) -> (r: Index<T>)
        ensures
            r@ == self@,
    {
        proof {
            use_type_invariant(self);
        }
        Index { index: self.index, mark: PhantomData }
    }
}

impl<T> Copy for Index<T> {

}

impl<T> Index<T> {
    #[verifier::type_invariant]
    spec fn nonzero(self) -> bool {
        self.index != 0
    }

    /// The index with number `index`, which must not be zero.
    pub fn new(index: u16) -> (r: Result<Index<T>, DecodeError>)
        ensures
            match r {
                Ok(i) => index != 0 && i@ == index,
                Err(e) => index == 0 && e == (DecodeError {
                    kind: DecodeErrorKind::InvalidIndex,
                    position: None,
                    context: Context::Nowhere,
                }),
            },
    {
        if index == 0 {
            Err(DecodeError::new(DecodeErrorKind::InvalidIndex))
        } else {
            Ok(Index { index, mark: PhantomData })
        }
    }

    /// The number of the entry.
    pub fn get(&self) -> (r: u16)
        ensures
            r == self@,
            r != 0,
    {
        proof {
            use_type_invariant(self);
        }
        self.index
    }
}

/// What a method handle does with the entry that it refers to.
#[derive(Debug, Clone, Copy, PartialEq, Eq, Structural)]
pub enum MethodKind {
    GetField,
    GetStatic,
    PutField,
    PutStatic,
    InvokeVirtual,
    InvokeStatic,
    InvokeSpecial,
    NewInvokeSpecial,
    InvokeInterface,
}

impl MethodKind {
    /// The byte that stands for the kind.
    pub open spec fn tag(self) -> u8 {
        match self {
            MethodKind::GetField => 1,
            MethodKind::GetStatic => 2,
            MethodKind::PutField => 3,
            MethodKind::PutStatic => 4,
            MethodKind::InvokeVirtual => 5,
            MethodKind::InvokeStatic => 6,
            MethodKind::InvokeSpecial => 7,
            MethodKind::NewInvokeSpecial => 8,
            MethodKind::InvokeInterface => 9,
        }
    }

    /// The byte that stands for the kind.
    pub fn to_tag(self) -> (r: u8)
        ensures
            r == self.tag(),
    {
        match self {
            MethodKind::GetField => 1,
            MethodKind::GetStatic => 2,
            MethodKind::PutField => 3,
            MethodKind::PutStatic => 4,
            MethodKind::InvokeVirtual => 5,
            MethodKind::InvokeStatic => 6,
            MethodKind::InvokeSpecial => 7,
            MethodKind::NewInvokeSpecial => 8,
            MethodKind::InvokeInterface => 9,
        }
    }

    /// The kind that `tag` stands for, if it stands for one.
    pub fn from_tag(tag: u8) -> (r: Option<MethodKind>)
        ensures
            match r {
                Some(kind) => kind.tag() == tag,
                None => !(1 <= tag <= 9),
            },
    {
        match tag {
            1 => Some(MethodKind::GetField),
            2 => Some(MethodKind::GetStatic),
            3 => Some(MethodKind::PutField),
            4 => Some(MethodKind::PutStatic),
            5 => Some(MethodKind::InvokeVirtual),
            6 => Some(MethodKind::InvokeStatic),
            7 => Some(MethodKind::InvokeSpecial),
            8 => Some(MethodKind::NewInvokeSpecial),
            9 => Some(MethodKind::InvokeInterface),
            _ => None,
        }
    }
}

/// A class or an interface, named by its name.
#[derive(Debug, Clone, Copy, PartialEq, Eq)]
pub struct Class<'a> {
    pub name: Index<Utf8<'a>>,
}

/// A field, named by the class that it belongs to, its name and its type.
#[derive(Debug, Clone, Copy, PartialEq, Eq)]
pub struct FieldRef<'a> {
    pub class: Index<Class<'a>>,
    pub name_and_type: Index<NameAndType<'a>>,
}

/// A method of a class, named by the class, its name and its type.
#[derive(Debug, Clone, Copy, PartialEq, Eq)]
pub struct MethodRef<'a> {
    pub class: Index<Class<'a>>,
    pub name_and_type: Index<NameAndType<'a>>,
}

/// A method of an interface, named by the interface, its name and its type.
#[derive(Debug, Clone, Copy, PartialEq, Eq)]
pub struct InterfaceMethodRef<'a> {
    pub class: Index<Class<'a>>,
    pub name_and_type: Index<NameAndType<'a>>,
}

/// A string constant.
#[derive(Debug, Clone, Copy, PartialEq, Eq)]
pub struct String<'a> {
    pub string: Index<Utf8<'a>>,
}

/// A four-byte whole number.
#[derive(Debug, Clone, Copy, PartialEq, Eq)]
pub struct Integer {
    pub value: i32,
}

/// An eight-byte whole number.
#[derive(Debug, Clone, Copy, PartialEq, Eq)]
pub struct Long {
    pub value: i64,
}

/// A single-precision number, held as its bit pattern.
#[derive(Debug, Clone, Copy, PartialEq, Eq)]
pub struct Float {
    pub bits: u32,
}

/// A double-precision number, held as its bit pattern.
#[derive(Debug, Clone, Copy, PartialEq, Eq)]
pub struct Double {
    pub bits: u64,
}

/// A name together with the descriptor of a type.
#[derive(Debug, Clone, Copy, PartialEq, Eq)]
pub struct NameAndType<'a> {
    pub name: Index<Utf8<'a>>,
    pub descriptor: Index<Utf8<'a>>,
}

/// A string in modified UTF-8.
#[derive(Debug, Clone, Copy, PartialEq, Eq)]
pub struct Utf8<'a> {
    pub content: MStr<'a>,
}

/// A handle on a field or a method.
#[derive(Debug, Clone, Copy, PartialEq, Eq)]
pub struct MethodHandle<'a> {
    pub kind: MethodKind,
    pub reference: Index<Item<'a>>,
}

/// The type of a method, given by its descriptor.
#[derive(Debug, Clone, Copy, PartialEq, Eq)]
pub struct MethodType<'a> {
    pub descriptor: Index<Utf8<'a>>,
}

/// A constant that is computed by a bootstrap method.
#[derive(Debug, Clone, Copy, PartialEq, Eq)]
pub struct Dynamic<'a> {
    /// The number of an entry of the table of bootstrap methods.
    pub bootstrap_method_attr: u16,
    pub name_and_type: Index<NameAndType<'a>>,
}

/// A call site that is linked by a bootstrap method.
#[derive(Debug, Clone, Copy, PartialEq, Eq)]
pub struct InvokeDynamic<'a> {
    /// The number of an entry of the table of bootstrap methods.
    pub bootstrap_method_attr: u16,
    pub name_and_type: Index<NameAndType<'a>>,
}

/// A module, named by its name.
#[derive(Debug, Clone, Copy, PartialEq, Eq)]
pub struct Module<'a> {
    pub name: Index<Utf8<'a>>,
}

/// A package, named by its name.
#[derive(Debug, Clone, Copy, PartialEq, Eq)]
pub struct Package<'a> {
    pub name: Index<Utf8<'a>>,
}

/// An entry of the constant pool.
#[derive(Debug, Clone, Copy, PartialEq, Eq)]
pub enum Item<'a> {
    Class(Class<'a>),
    FieldRef(FieldRef<'a>),
    MethodRef(MethodRef<'a>),
    InterfaceMethodRef(InterfaceMethodRef<'a>),
    String(String<'a>),
    Integer(Integer),
    Long(Long),
    Float(Float),
    Double(Double),
    NameAndType(NameAndType<'a>),
    Utf8(Utf8<'a>),
    MethodHandle(MethodHandle<'a>),
    MethodType(MethodType<'a>),
    Dynamic(Dynamic<'a>),
    InvokeDynamic(InvokeDynamic<'a>),
    Module(Module<'a>),
    Package(Package<'a>),
}

/// One of the pieces that the entries of the pool are made of.
#[derive(Debug, Clone, Copy, PartialEq, Eq, Structural)]
pub enum Part {
    /// A number of one byte.
    Byte,
    /// A number of two bytes.
    Short,
    /// A number of four bytes.
    Word,
    /// A number of eight bytes.
    Wide,
    /// The number of another entry: two bytes, not both zero.
    Reference,
    /// The kind of a method handle: one byte from one to nine.
    Kind,
    /// A string: its length in two bytes, then that many bytes of modified
    /// UTF-8.
    Text,
}

/// Why a piece of input is not what it should be.
pub enum Failure {
    /// The input ends too early. The read that found this out started at the
    /// given offset from the start of the piece.
    Eoi(nat),
    /// The bytes are there but mean nothing.
    Invalid(DecodeErrorKind),
}

impl Failure {
    /// The same failure, seen from `by` bytes further to the front.
    pub open spec fn shifted(self, by: nat) -> Failure {
        match self {
            Failure::Eoi(offset) => Failure::Eoi(offset + by),
            Failure::Invalid(kind) => Failure::Invalid(kind),
        }
    }

    /// The error that reports the failure of a piece that starts at `cursor`.
    /// Only running out of input is tied to a position.
    pub open spec fn at(self, cursor: Cursor) -> DecodeError {
        match self {
            Failure::Eoi(offset) => DecodeError {
                kind: DecodeErrorKind::UnexpectedEoi,
                position: Some((cursor.position + offset) as usize),
                context: cursor.context,
            },
            Failure::Invalid(kind) => DecodeError { kind, position: None, context: cursor.context },
        }
    }
}

/// The length of the part `part` at the front of `bytes`, or why there is no
/// such part.
pub open spec fn scan_part(bytes: Seq<u8>, part: Part) -> Result<nat, Failure> {
    match part {
        Part::Byte => if bytes.len() < 1 {
            Err(Failure::Eoi(0))
        } else {
            Ok(1)
        },
        Part::Short => if bytes.len() < 2 {
            Err(Failure::Eoi(0))
        } else {
            Ok(2)
        },
        Part::Word => if bytes.len() < 4 {
            Err(Failure::Eoi(0))
        } else {
            Ok(4)
        },
        Part::Wide => if bytes.len() < 8 {
            Err(Failure::Eoi(0))
        } else {
            Ok(8)
        },
        Part::Reference => if bytes.len() < 2 {
            Err(Failure::Eoi(0))
        } else if be_value(bytes.take(2)) == 0 {
            Err(Failure::Invalid(DecodeErrorKind::InvalidIndex))
        } else {
            Ok(2)
        },
        Part::Kind => if bytes.len() < 1 {
            Err(Failure::Eoi(0))
        } else if 1 <= bytes[0] <= 9 {
            Ok(1)
        } else {
            Err(Failure::Invalid(DecodeErrorKind::InvalidTag))
        },
        Part::Text => if bytes.len() < 2 {
            Err(Failure::Eoi(0))
        } else {
            let length = be_value(bytes.take(2));
            if bytes.len() < 2 + length {
                Err(Failure::Eoi(2))
            } else if is_mutf8(bytes.subrange(2, 2 + length as int)) {
                Ok(2 + length)
            } else {
                Err(Failure::Invalid(DecodeErrorKind::InvalidMutf8))
            }
        },
    }
}

/// The parts that follow the tag `tag` in an entry, or `None` if no kind of
/// entry has this tag. No entry has more than two parts.
pub open spec fn shape(tag: u8) -> Option<(Part, Option<Part>)> {
    if tag == 1 {
        Some((Part::Text, None))
    } else if tag == 3 || tag == 4 {
        Some((Part::Word, None))
    } else if tag == 5 || tag == 6 {
        Some((Part::Wide, None))
    } else if tag == 7 || tag == 8 || tag == 16 || tag == 19 || tag == 20 {
        Some((Part::Reference, None))
    } else if 9 <= tag <= 12 {
        Some((Part::Reference, Some(Part::Reference)))
    } else if tag == 15 {
        Some((Part::Kind, Some(Part::Reference)))
    } else if tag == 17 || tag == 18 {
        Some((Part::Short, Some(Part::Reference)))
    } else {
        None
    }
}

/// The length of the entry at the front of `bytes`, or why there is no entry.
#[verifier::opaque]
pub open spec fn scan_item(bytes: Seq<u8>) -> Result<nat, Failure> {
    if bytes.len() < 1 {
        Err(Failure::Eoi(0))
    } else {
        match shape(bytes[0]) {
            None => Err(Failure::Invalid(DecodeErrorKind::InvalidTag)),
            Some((first, second)) => match scan_part(bytes.skip(1), first) {
                Err(f) => Err(f.shifted(1)),
                Ok(n) => match second {
                    None => Ok(1 + n),
                    Some(part) => match scan_part(bytes.skip(1 + n as int), part) {
                        Err(f) => Err(f.shifted(1 + n)),
                        Ok(m) => Ok(1 + n + m),
                    },
                },
            },
        }
    }
}

/// An entry is at least its tag and at most what there is.
pub proof fn lemma_scan_item_length(bytes: Seq<u8>)
    ensures
        scan_item(bytes) matches Ok(n) ==> 1 <= n <= bytes.len(),
{
    reveal(scan_item);
}

/// Whether an entry with tag `tag` takes up two slots of the pool.
pub open spec fn is_wide(tag: u8) -> bool {
    tag == 5 || tag == 6
}

/// A part as it was read: a number, or a string.
struct Piece<'a> {
    number: u64,
    text: Option<MStr<'a>>,
}

impl<'a> Piece<'a> {
    /// The bytes that the piece was read from, if it was read as `part`.
    spec fn bytes(self, part: Part) -> Seq<u8> {
        match part {
            Part::Byte | Part::Kind => be_bytes(self.number as nat, 1),
            Part::Short | Part::Reference => be_bytes(self.number as nat, 2),
            Part::Word => be_bytes(self.number as nat, 4),
            Part::Wide => be_bytes(self.number as nat, 8),
            Part::Text => be_bytes(self.text->0@.len(), 2) + self.text->0@,
        }
    }

    /// What is known of a piece that was read as `part`.
    spec fn is_a(self, part: Part) -> bool {
        match part {
            Part::Byte => self.number <= u8::MAX,
            Part::Kind => 1 <= self.number <= 9,
            Part::Short => self.number <= u16::MAX,
            Part::Reference => 1 <= self.number <= u16::MAX,
            Part::Word => self.number <= u32::MAX,
            Part::Wide => true,
            Part::Text => self.text is Some && self.text->0@.len() <= u16::MAX,
        }
    }
}

/// Reads a number of `width` bytes.
fn read_number<'a>(decoder: &mut Decoder<'a>, width: usize) -> (r: Result<u64, DecodeError>)
    requires
        1 <= width <= 8,
    ensures
        match r {
            Ok(number) => old(decoder)@.took(final(decoder)@, width as nat) && number == be_value(
                old(decoder)@.front(width as nat),
            ) && be_bytes(number as nat, width as nat) == old(decoder)@.front(width as nat)
                && number < crate::bigendian::span(width as nat),
            Err(e) => old(decoder)@.ran_out(final(decoder)@, width as nat, e),
        },
{
    let bytes = decoder.split_bytes_off(width)?;
    proof {
        lemma_span_values();
        crate::bigendian::lemma_span_monotonic(width as nat, 8);
        lemma_bytes_of_value(bytes@);
    }
    Ok(crate::bigendian::read_unsigned(bytes) as u64)
}

/// Reads the part `part`.
fn read_part<'a>(decoder: &mut Decoder<'a>, part: Part) -> (r: Result<Piece<'a>, DecodeError>)
    ensures
        match scan_part(old(decoder)@.remaining, part) {
            Ok(n) => r matches Ok(piece) && piece.is_a(part)
                && piece.bytes(part) == old(decoder)@.front(n)
                && final(decoder)@ == old(decoder)@.skip(n as int),
            Err(f) => r matches Err(e) && e == f.at(old(decoder)@),
        },
{
    let ghost before = decoder@;
    let _ = decoder.file_position();
    proof {
        lemma_span_values();
    }
    match part {
        Part::Byte => {
            let number = read_number(decoder, 1)?;
            Ok(Piece { number, text: None })
        },
        Part::Short => {
            let number = read_number(decoder, 2)?;
            Ok(Piece { number, text: None })
        },
        Part::Word => {
            let number = read_number(decoder, 4)?;
            Ok(Piece { number, text: None })
        },
        Part::Wide => {
            let number = read_number(decoder, 8)?;
            Ok(Piece { number, text: None })
        },
        Part::Reference => {
            let number = read_number(decoder, 2)?;
            if number == 0 {
                return Err(
                    DecodeError::with_context(DecodeErrorKind::InvalidIndex, decoder.context()),
                );
            }
            Ok(Piece { number, text: None })
        },
        Part::Kind => {
            let number = read_number(decoder, 1)?;
            proof {
                reveal_with_fuel(be_value, 2);
                assert(before.front(1)[0] == before.remaining[0]);
                assert(before.front(1).drop_last() == Seq::<u8>::empty());
            }
            if number < 1 || number > 9 {
                return Err(
                    DecodeError::with_context(DecodeErrorKind::InvalidTag, decoder.context()),
                );
            }
            Ok(Piece { number, text: None })
        },
        Part::Text => {
            let length = read_number(decoder, 2)?;
            let bytes = decoder.split_bytes_off(length as usize)?;
            assert(bytes@ == before.remaining.subrange(2, 2 + length));
            match MStr::from_mutf8(bytes) {
                Ok(text) => {
                    assert(before.front(2) + bytes@ == before.front((2 + length) as nat));
                    assert(before.remaining.skip(2).skip(length as int) == before.remaining.skip(
                        2 + length,
                    ));
                    Ok(Piece { number: length, text: Some(text) })
                },
                Err(_) => Err(
                    DecodeError::with_context(DecodeErrorKind::InvalidMutf8, decoder.context()),
                ),
            }
        },
    }
}

impl<'a> Item<'a> {
    /// The byte that an entry of this kind starts with.
    pub open spec fn tag(self) -> u8 {
        match self {
            Item::Utf8(_) => 1,
            Item::Integer(_) => 3,
            Item::Float(_) => 4,
            Item::Long(_) => 5,
            Item::Double(_) => 6,
            Item::Class(_) => 7,
            Item::String(_) => 8,
            Item::FieldRef(_) => 9,
            Item::MethodRef(_) => 10,
            Item::InterfaceMethodRef(_) => 11,
            Item::NameAndType(_) => 12,
            Item::MethodHandle(_) => 15,
            Item::MethodType(_) => 16,
            Item::Dynamic(_) => 17,
            Item::InvokeDynamic(_) => 18,
            Item::Module(_) => 19,
            Item::Package(_) => 20,
        }
    }

    /// The bytes that follow the tag.
    pub open spec fn body(self) -> Seq<u8> {
        match self {
            Item::Utf8(v) => be_bytes(v.content@.len(), 2) + v.content@,
            Item::Integer(v) => be_bytes(unsigned(v.value as int, 4), 4),
            Item::Float(v) => be_bytes(v.bits as nat, 4),
            Item::Long(v) => be_bytes(unsigned(v.value as int, 8), 8),
            Item::Double(v) => be_bytes(v.bits as nat, 8),
            Item::Class(v) => be_bytes(v.name@ as nat, 2),
            Item::String(v) => be_bytes(v.string@ as nat, 2),
            Item::FieldRef(v) => be_bytes(v.class@ as nat, 2) + be_bytes(
                v.name_and_type@ as nat,
                2,
            ),
            Item::MethodRef(v) => be_bytes(v.class@ as nat, 2) + be_bytes(
                v.name_and_type@ as nat,
                2,
            ),
            Item::InterfaceMethodRef(v) => be_bytes(v.class@ as nat, 2) + be_bytes(
                v.name_and_type@ as nat,
                2,
            ),
            Item::NameAndType(v) => be_bytes(v.name@ as nat, 2) + be_bytes(
                v.descriptor@ as nat,
                2,
            ),
            Item::MethodHandle(v) => be_bytes(v.kind.tag() as nat, 1) + be_bytes(
                v.reference@ as nat,
                2,
            ),
            Item::MethodType(v) => be_bytes(v.descriptor@ as nat, 2),
            Item::Dynamic(v) => be_bytes(v.bootstrap_method_attr as nat, 2) + be_bytes(
                v.name_and_type@ as nat,
                2,
            ),
            Item::InvokeDynamic(v) => be_bytes(v.bootstrap_method_attr as nat, 2) + be_bytes(
                v.name_and_type@ as nat,
                2,
            ),
            Item::Module(v) => be_bytes(v.name@ as nat, 2),
            Item::Package(v) => be_bytes(v.name@ as nat, 2),
        }
    }

    /// The bytes that stand for the entry: its tag and what follows it.
    pub open spec fn encoding(self) -> Seq<u8> {
        seq![self.tag()] + self.body()
    }

    /// The number of slots of the pool that the entry takes up.
    pub open spec fn slots(self) -> nat {
        if is_wide(self.tag()) {
            2
        } else {
            1
        }
    }

    /// Whether the entry can be written: a string must not be longer than its
    /// two-byte length can express.
    pub open spec fn encodable(self) -> bool {
        self matches Item::Utf8(v) ==> v.content@.len() <= u16::MAX
    }
}

/// The index with number `number`.
pub(crate) fn index_of<T>(number: u64) -> (r: Index<T>)
    requires
        1 <= number <= u16::MAX,
    ensures
        r@ == number,
{
    Index { index: number as u16, mark: PhantomData }
}

/// The parts that follow the tag `tag`.
fn shape_of(tag: u8) -> (r: Option<(Part, Option<Part>)>)
    ensures
        r == shape(tag),
{
    if tag == 1 {
        Some((Part::Text, None))
    } else if tag == 3 || tag == 4 {
        Some((Part::Word, None))
    } else if tag == 5 || tag == 6 {
        Some((Part::Wide, None))
    } else if tag == 7 || tag == 8 || tag == 16 || tag == 19 || tag == 20 {
        Some((Part::Reference, None))
    } else if 9 <= tag && tag <= 12 {
        Some((Part::Reference, Some(Part::Reference)))
    } else if tag == 15 {
        Some((Part::Kind, Some(Part::Reference)))
    } else if tag == 17 || tag == 18 {
        Some((Part::Short, Some(Part::Reference)))
    } else {
        None
    }
}

/// The bytes that the pieces of an entry with tag `tag` were read from.
spec fn pieces_bytes(tag: u8, first: Piece, second: Option<Piece>) -> Seq<u8> {
    match shape(tag) {
        Some((part, Some(other))) => first.bytes(part) + second->0.bytes(other),
        Some((part, None)) => first.bytes(part),
        None => Seq::empty(),
    }
}

/// The entry with tag `tag` that is made of the pieces `first` and `second`.
#[verifier::rlimit(40)]
fn assemble<'a>(tag: u8, first: Piece<'a>, second: Option<Piece<'a>>) -> (item: Item<'a>)
    requires
        shape(tag) matches Some((part, next)) && first.is_a(part) && match next {
            Some(other) => second matches Some(piece) && piece.is_a(other),
            None => second is None,
        },
    ensures
        item.tag() == tag,
        item.body() == pieces_bytes(tag, first, second),
        item.valid(),
{
    proof {
        lemma_span_values();
    }
    if tag == 1 {
        match first.text {
            Some(content) => {
                let _ = content.as_bytes();
                Item::Utf8(Utf8 { content })
            },
            None => vstd::pervasive::unreached(),
        }
    } else if tag == 3 {
        let raw = first.number as u32;
        let value = if raw < 0x8000_0000 {
            raw as i32
        } else {
            -((u32::MAX - raw) as i32) - 1
        };
        Item::Integer(Integer { value })
    } else if tag == 4 {
        Item::Float(Float { bits: first.number as u32 })
    } else if tag == 5 {
        let raw = first.number;
        let value = if raw < 0x8000_0000_0000_0000 {
            raw as i64
        } else {
            -((u64::MAX - raw) as i64) - 1
        };
        Item::Long(Long { value })
    } else if tag == 6 {
        Item::Double(Double { bits: first.number })
    } else if tag == 7 {
        Item::Class(Class { name: index_of(first.number) })
    } else if tag == 8 {
        Item::String(String { string: index_of(first.number) })
    } else if tag == 16 {
        Item::MethodType(MethodType { descriptor: index_of(first.number) })
    } else if tag == 19 {
        Item::Module(Module { name: index_of(first.number) })
    } else if tag == 20 {
        Item::Package(Package { name: index_of(first.number) })
    } else {
        let second = match second {
            Some(second) => second,
            None => vstd::pervasive::unreached(),
        };
        if tag == 9 {
            Item::FieldRef(
                FieldRef {
                    class: index_of(first.number),
                    name_and_type: index_of(second.number),
                },
            )
        } else if tag == 10 {
            Item::MethodRef(
                MethodRef {
                    class: index_of(first.number),
                    name_and_type: index_of(second.number),
                },
            )
        } else if tag == 11 {
            Item::InterfaceMethodRef(
                InterfaceMethodRef {
                    class: index_of(first.number),
                    name_and_type: index_of(second.number),
                },
            )
        } else if tag == 12 {
            Item::NameAndType(
                NameAndType { name: index_of(first.number), descriptor: index_of(second.number) },
            )
        } else if tag == 15 {
            match MethodKind::from_tag(first.number as u8) {
                Some(kind) => Item::MethodHandle(
                    MethodHandle { kind, reference: index_of(second.number) },
                ),
                None => vstd::pervasive::unreached(),
            }
        } else if tag == 17 {
            Item::Dynamic(
                Dynamic {
                    bootstrap_method_attr: first.number as u16,
                    name_and_type: index_of(second.number),
                },
            )
        } else {
            Item::InvokeDynamic(
                InvokeDynamic {
                    bootstrap_method_attr: first.number as u16,
                    name_and_type: index_of(second.number),
                },
            )
        }
    }
}

impl<'a> Decode<'a> for Item<'a> {
    /// An entry is decoded exactly where an entry stands, and then it is the
    /// entry whose encoding was read. Otherwise the failure of the scan is
    /// reported.
    open spec fn decodes(before: Cursor, after: Cursor, r: Result<Item<'a>, DecodeError>) -> bool {
        match scan_item(before.remaining) {
            Ok(n) => r matches Ok(item) && item.valid() && item.encoding() == before.front(n)
                && after == before.skip(n as int),
            Err(f) => r matches Err(e) && e == f.at(before),
        }
    }

    fn decode(decoder: &mut Decoder<'a>) -> (r: Result<Item<'a>, DecodeError>) {
        let mut cursor = decoder.clone();
        let r = Self::parse(&mut cursor);
        if r.is_ok() {
            *decoder = cursor;
        }
        r
    }
}

impl<'a> Item<'a> {
    /// Decodes an entry, wherever that ends.
    #[verifier::rlimit(40)]
    fn parse(decoder: &mut Decoder<'a>) -> (r: Result<Item<'a>, DecodeError>)
        ensures
            <Self as Decode<'a>>::decodes(old(decoder)@, final(decoder)@, r),
    {
        reveal(scan_item);
        let ghost before = decoder@;
        let _ = decoder.file_position();
        let tag = read_number(decoder, 1)?;
        let tag = tag as u8;
        proof {
            lemma_span_values();
            reveal_with_fuel(be_value, 2);
            reveal_with_fuel(be_bytes, 2);
            assert(before.front(1)[0] == before.remaining[0]);
            assert(before.front(1).drop_last() == Seq::<u8>::empty());
            assert(before.front(1) == seq![tag]);
        }
        let (part, next) = match shape_of(tag) {
            Some(shape) => shape,
            None => {
                return Err(
                    DecodeError::with_context(DecodeErrorKind::InvalidTag, decoder.context()),
                );
            },
        };
        let ghost inner = decoder@;
        let first = read_part(decoder, part)?;
        let ghost n = scan_part(inner.remaining, part)->Ok_0 as int;
        let ghost middle = decoder@;
        proof {
            assert(before.remaining.skip(1).skip(n) == before.remaining.skip(1 + n));
            assert(middle.remaining == before.remaining.skip(1 + n));
            assert(middle.position == before.position + 1 + n);
        }
        let second = match next {
            Some(other) => Some(read_part(decoder, other)?),
            None => None,
        };
        let item = assemble(tag, first, second);
        proof {
            let total = scan_item(before.remaining)->Ok_0;
            assert(before.remaining.skip(1).skip(n) == before.remaining.skip(1 + n));
            assert(inner.front(n as nat) == before.remaining.subrange(1, 1 + n));
            match next {
                Some(other) => {
                    let m = scan_part(middle.remaining, other)->Ok_0 as int;
                    assert(middle.front(m as nat) == before.remaining.subrange(1 + n, 1 + n + m));
                    assert(before.remaining.skip(1 + n).skip(m) == before.remaining.skip(
                        1 + n + m,
                    ));
                    assert(item.encoding() == before.front(total));
                },
                None => {
                    assert(item.encoding() == before.front(total));
                },
            }
        }
        Ok(item)
    }
}

impl<'a, T: 'a> Decode<'a> for Index<T> {
    /// An index is a two-byte number that is not zero.
    open spec fn decodes(before: Cursor, after: Cursor, r: Result<Index<T>, DecodeError>) -> bool {
        match scan_part(before.remaining, Part::Reference) {
            Ok(n) => r matches Ok(index) && index@ == be_value(before.front(2)) && after
                == before.skip(2),
            Err(f) => r matches Err(e) && e == f.at(before),
        }
    }

    fn decode(decoder: &mut Decoder<'a>) -> (r: Result<Index<T>, DecodeError>) {
        let mut cursor = decoder.clone();
        let r = Self::parse(&mut cursor);
        if r.is_ok() {
            *decoder = cursor;
        }
        r
    }
}

impl<'a, T: 'a> Index<T> {
    /// Decodes an index, wherever that ends.
    fn parse(decoder: &mut Decoder<'a>) -> (r: Result<Index<T>, DecodeError>)
        ensures
            <Self as Decode<'a>>::decodes(old(decoder)@, final(decoder)@, r),
    {
        let piece = read_part(decoder, Part::Reference)?;
        proof {
            lemma_span_values();
            crate::bigendian::lemma_value_of_bytes(piece.number as nat, 2);
        }
        Ok(index_of(piece.number))
    }
}

impl<T> Encode for Index<T> {
    open spec fn encoding(&self) -> Seq<u8> {
        be_bytes(self@ as nat, 2)
    }

    fn encode<E: Encoder>(&self, encoder: &mut E) -> (r: Result<(), EncodeError>) {
        let bytes = crate::bigendian::write_unsigned(self.index as u128, 2);
        encoder.write_bytes(bytes.as_slice())
    }
}

/// A kind of entry that can be told apart from the other kinds.
pub trait TryFromItem<'a>: Sized {
    /// The entry as an entry of this kind, if it is one.
    spec fn pick(item: Item<'a>) -> Option<Self>;

    fn try_from_item<'p>(item: &'p Item<'a>) -> (r: Option<&'p Self>)
        ensures
            match r {
                Some(v) => Self::pick(*item) == Some(*v),
                None => Self::pick(*item) is None,
            },
    ;
}

impl<'a> TryFromItem<'a> for Item<'a> {
    /// Every entry is an entry.
    open spec fn pick(item: Item<'a>) -> Option<Item<'a>> {
        Some(item)
    }

    fn try_from_item<'p>(item: &'p Item<'a>) -> (r: Option<&'p Item<'a>>) {
        Some(item)
    }
}

impl<'a> TryFromItem<'a> for Class<'a> {
    open spec fn pick(item: Item<'a>) -> Option<Class<'a>> {
        match item {
            Item::Class(v) => Some(v),
            _ => None,
        }
    }

    fn try_from_item<'p>(item: &'p Item<'a>) -> (r: Option<&'p Class<'a>>) {
        match item {
            Item::Class(v) => Some(v),
            _ => None,
        }
    }
}

impl<'a> TryFromItem<'a> for FieldRef<'a> {
    open spec fn pick(item: Item<'a>) -> Option<FieldRef<'a>> {
        match item {
            Item::FieldRef(v) => Some(v),
            _ => None,
        }
    }

    fn try_from_item<'p>(item: &'p Item<'a>) -> (r: Option<&'p FieldRef<'a>>) {
        match item {
            Item::FieldRef(v) => Some(v),
            _ => None,
        }
    }
}

impl<'a> TryFromItem<'a> for MethodRef<'a> {
    open spec fn pick(item: Item<'a>) -> Option<MethodRef<'a>> {
        match item {
            Item::MethodRef(v) => Some(v),
            _ => None,
        }
    }

    fn try_from_item<'p>(item: &'p Item<'a>) -> (r: Option<&'p MethodRef<'a>>) {
        match item {
            Item::MethodRef(v) => Some(v),
            _ => None,
        }
    }
}

impl<'a> TryFromItem<'a> for InterfaceMethodRef<'a> {
    open spec fn pick(item: Item<'a>) -> Option<InterfaceMethodRef<'a>> {
        match item {
            Item::InterfaceMethodRef(v) => Some(v),
            _ => None,
        }
    }

    fn try_from_item<'p>(item: &'p Item<'a>) -> (r: Option<&'p InterfaceMethodRef<'a>>) {
        match item {
            Item::InterfaceMethodRef(v) => Some(v),
            _ => None,
        }
    }
}

impl<'a> TryFromItem<'a> for String<'a> {
    open spec fn pick(item: Item<'a>) -> Option<String<'a>> {
        match item {
            Item::String(v) => Some(v),
            _ => None,
        }
    }

    fn try_from_item<'p>(item: &'p Item<'a>) -> (r: Option<&'p String<'a>>) {
        match item {
            Item::String(v) => Some(v),
            _ => None,
        }
    }
}

impl<'a> TryFromItem<'a> for Integer {
    open spec fn pick(item: Item<'a>) -> Option<Integer> {
        match item {
            Item::Integer(v) => Some(v),
            _ => None,
        }
    }

    fn try_from_item<'p>(item: &'p Item<'a>) -> (r: Option<&'p Integer>) {
        match item {
            Item::Integer(v) => Some(v),
            _ => None,
        }
    }
}

impl<'a> TryFromItem<'a> for Long {
    open spec fn pick(item: Item<'a>) -> Option<Long> {
        match item {
            Item::Long(v) => Some(v),
            _ => None,
        }
    }

    fn try_from_item<'p>(item: &'p Item<'a>) -> (r: Option<&'p Long>) {
        match item {
            Item::Long(v) => Some(v),
            _ => None,
        }
    }
}

impl<'a> TryFromItem<'a> for Float {
    open spec fn pick(item: Item<'a>) -> Option<Float> {
        match item {
            Item::Float(v) => Some(v),
            _ => None,
        }
    }

    fn try_from_item<'p>(item: &'p Item<'a>) -> (r: Option<&'p Float>) {
        match item {
            Item::Float(v) => Some(v),
            _ => None,
        }
    }
}

impl<'a> TryFromItem<'a> for Double {
    open spec fn pick(item: Item<'a>) -> Option<Double> {
        match item {
            Item::Double(v) => Some(v),
            _ => None,
        }
    }

    fn try_from_item<'p>(item: &'p Item<'a>) -> (r: Option<&'p Double>) {
        match item {
            Item::Double(v) => Some(v),
            _ => None,
        }
    }
}

impl<'a> TryFromItem<'a> for NameAndType<'a> {
    open spec fn pick(item: Item<'a>) -> Option<NameAndType<'a>> {
        match item {
            Item::NameAndType(v) => Some(v),
            _ => None,
        }
    }

    fn try_from_item<'p>(item: &'p Item<'a>) -> (r: Option<&'p NameAndType<'a>>) {
        match item {
            Item::NameAndType(v) => Some(v),
            _ => None,
        }
    }
}

impl<'a> TryFromItem<'a> for Utf8<'a> {
    open spec fn pick(item: Item<'a>) -> Option<Utf8<'a>> {
        match item {
            Item::Utf8(v) => Some(v),
            _ => None,
        }
    }

    fn try_from_item<'p>(item: &'p Item<'a>) -> (r: Option<&'p Utf8<'a>>) {
        match item {
            Item::Utf8(v) => Some(v),
            _ => None,
        }
    }
}

impl<'a> TryFromItem<'a> for MethodHandle<'a> {
    open spec fn pick(item: Item<'a>) -> Option<MethodHandle<'a>> {
        match item {
            Item::MethodHandle(v) => Some(v),
            _ => None,
        }
    }

    fn try_from_item<'p>(item: &'p Item<'a>) -> (r: Option<&'p MethodHandle<'a>>) {
        match item {
            Item::MethodHandle(v) => Some(v),
            _ => None,
        }
    }
}

impl<'a> TryFromItem<'a> for MethodType<'a> {
    open spec fn pick(item: Item<'a>) -> Option<MethodType<'a>> {
        match item {
            Item::MethodType(v) => Some(v),
            _ => None,
        }
    }

    fn try_from_item<'p>(item: &'p Item<'a>) -> (r: Option<&'p MethodType<'a>>) {
        match item {
            Item::MethodType(v) => Some(v),
            _ => None,
        }
    }
}

impl<'a> TryFromItem<'a> for Dynamic<'a> {
    open spec fn pick(item: Item<'a>) -> Option<Dynamic<'a>> {
        match item {
            Item::Dynamic(v) => Some(v),
            _ => None,
        }
    }

    fn try_from_item<'p>(item: &'p Item<'a>) -> (r: Option<&'p Dynamic<'a>>) {
        match item {
            Item::Dynamic(v) => Some(v),
            _ => None,
        }
    }
}

impl<'a> TryFromItem<'a> for InvokeDynamic<'a> {
    open spec fn pick(item: Item<'a>) -> Option<InvokeDynamic<'a>> {
        match item {
            Item::InvokeDynamic(v) => Some(v),
            _ => None,
        }
    }

    fn try_from_item<'p>(item: &'p Item<'a>) -> (r: Option<&'p InvokeDynamic<'a>>) {
        match item {
            Item::InvokeDynamic(v) => Some(v),
            _ => None,
        }
    }
}

impl<'a> TryFromItem<'a> for Module<'a> {
    open spec fn pick(item: Item<'a>) -> Option<Module<'a>> {
        match item {
            Item::Module(v) => Some(v),
            _ => None,
        }
    }

    fn try_from_item<'p>(item: &'p Item<'a>) -> (r: Option<&'p Module<'a>>) {
        match item {
            Item::Module(v) => Some(v),
            _ => None,
        }
    }
}

impl<'a> TryFromItem<'a> for Package<'a> {
    open spec fn pick(item: Item<'a>) -> Option<Package<'a>> {
        match item {
            Item::Package(v) => Some(v),
            _ => None,
        }
    }

    fn try_from_item<'p>(item: &'p Item<'a>) -> (r: Option<&'p Package<'a>>) {
        match item {
            Item::Package(v) => Some(v),
            _ => None,
        }
    }
}

/// The failure of a lookup in the pool, which is never tied to a position.
/// The context names the slot that was asked for, counted from zero.
pub open spec fn lookup_failure(kind: DecodeErrorKind, at: u16) -> DecodeError {
    DecodeError { kind, position: None, context: Context::ConstantPool((at - 1) as u16) }
}

/// The entry with number `at` of a pool with slots `pool`, as an entry of
/// kind `I`. The lookup fails with `InvalidIndex` if the number is zero, lies
/// behind the last slot or names the second slot of an eight-byte number, and
/// with `TagMismatch` if the entry is of another kind.
pub open spec fn lookup<'a, I: TryFromItem<'a>>(pool: Seq<Option<Item<'a>>>, at: u16) -> Result<
    I,
    DecodeError,
> {
    if at == 0 || at > pool.len() {
        Err(lookup_failure(DecodeErrorKind::InvalidIndex, at))
    } else {
        match pool[at - 1] {
            None => Err(lookup_failure(DecodeErrorKind::InvalidIndex, at)),
            Some(item) => match I::pick(item) {
                Some(v) => Ok(v),
                None => Err(lookup_failure(DecodeErrorKind::TagMismatch, at)),
            },
        }
    }
}

/// The length of the entries that fill the slots from `slot` on of a pool
/// whose count field holds `count`, if they stand at the front of `bytes`.
/// Otherwise the slot of the first entry that does not decode, the offset at
/// which that entry starts, and why it does not decode.
pub open spec fn scan_entries(bytes: Seq<u8>, slot: nat, count: nat) -> Result<
    nat,
    (nat, nat, Failure),
>
    decreases count - slot,
{
    if slot + 1 >= count {
        Ok(0)
    } else {
        match scan_item(bytes) {
            Err(f) => Err((slot, 0, f)),
            Ok(n) => {
                let step: nat = if is_wide(bytes[0]) {
                    2
                } else {
                    1
                };
                match scan_entries(bytes.skip(n as int), slot + step, count) {
                    Ok(m) => Ok(n + m),
                    Err((s, offset, f)) => Err((s, offset + n, f)),
                }
            },
        }
    }
}

/// The encodings of the entries in `slots`, one after the other.
pub open spec fn entries_bytes(slots: Seq<Option<Item>>) -> Seq<u8>
    decreases slots.len(),
{
    if slots.len() == 0 {
        Seq::empty()
    } else {
        entries_bytes(slots.drop_last()) + match slots.last() {
            Some(item) => item.encoding(),
            None => Seq::empty(),
        }
    }
}

/// The number of slots that the entries in `slots` take up when they are
/// added to a pool one by one.
pub open spec fn copied_slots(slots: Seq<Option<Item>>) -> nat
    decreases slots.len(),
{
    if slots.len() == 0 {
        0
    } else {
        copied_slots(slots.drop_last()) + match slots.last() {
            Some(item) => item.slots(),
            None => 0,
        }
    }
}

/// The bytes that stand for a pool with the entries in `slots`: the count
/// field, which holds one more than the number of slots that the entries
/// take up, and the encodings of the entries.
pub open spec fn pool_encoding(slots: Seq<Option<Item>>) -> Seq<u8> {
    be_bytes(copied_slots(slots) + 1, 2) + entries_bytes(slots)
}

/// Whether every entry in `slots` can be written.
pub open spec fn all_encodable(slots: Seq<Option<Item>>) -> bool {
    forall|i: int| 0 <= i < slots.len() && (#[trigger] slots[i]) is Some ==> slots[i]->0.encodable()
}

/// Whether every entry in `slots` is valid.
pub open spec fn all_valid(slots: Seq<Option<Item>>) -> bool {
    forall|i: int| 0 <= i < slots.len() && (#[trigger] slots[i]) is Some ==> slots[i]->0.valid()
}

/// Whether `slots` is filled the way a pool is: a slot is empty exactly if it
/// follows an eight-byte number.
pub open spec fn filled(slots: Seq<Option<Item>>) -> bool {
    forall|i: int|
        0 <= i < slots.len() ==> ((#[trigger] slots[i]) is None <==> i > 0 && slots[i - 1] is Some
            && slots[i - 1]->0.slots() == 2)
}

/// The constant pool of a class.
#[derive(Debug)]
pub struct ConstantPool<'a> {
    content: Vec<Option<Item<'a>>>,
}

impl<'a> View for ConstantPool<'a> {
    type V = Seq<Option<Item<'a>>>;

    /// The slots of the pool. The entry with number `n` stands in slot `n - 1`.
    closed spec fn view(&self) -> Seq<Option<Item<'a>>> {
        self.content@
    }
}

impl<'a> ConstantPool<'a> {
    /// The entry with number `at`, if it is of kind `I`.
    pub fn get<I: TryFromItem<'a>>(&self, at: Index<I>) -> (r: Result<&I, DecodeError>)
        ensures
            match r {
                Ok(v) => lookup::<I>(self@, at@) == Ok::<I, DecodeError>(*v),
                Err(e) => lookup::<I>(self@, at@) == Err::<I, DecodeError>(e),
            },
    {
        let number = at.get();
        let slot = (number - 1) as usize;
        if slot >= self.content.len() {
            return Err(
                DecodeError::with_context(
                    DecodeErrorKind::InvalidIndex,
                    Context::ConstantPool(number - 1),
                ),
            );
        }
        match &self.content[slot] {
            None => Err(
                DecodeError::with_context(
                    DecodeErrorKind::InvalidIndex,
                    Context::ConstantPool(number - 1),
                ),
            ),
            Some(item) => match I::try_from_item(item) {
                Some(v) => Ok(v),
                None => Err(
                    DecodeError::with_context(
                        DecodeErrorKind::TagMismatch,
                        Context::ConstantPool(number - 1),
                    ),
                ),
            },
        }
    }

    /// The entry that `at` names, with everything that it refers to looked
    /// up.
    pub fn retrieve<I: ToValue<'a>>(&self, at: I) -> (r: Result<I::Target, DecodeError>)
        ensures
            r == at.resolved(self@),
    {
        at.retrieve_from(self)
    }

    /// What stands in slot `slot`, counted from zero: an entry, or nothing
    /// if the slot follows an eight-byte number.
    pub fn slot(&self, slot: usize) -> (r: Option<&Item<'a>>)
        requires
            slot < self@.len(),
        ensures
            match r {
                Some(item) => self@[slot as int] == Some(*item),
                None => self@[slot as int] is None,
            },
    {
        match &self.content[slot] {
            Some(item) => Some(item),
            None => None,
        }
    }

    /// The number of slots of the pool.
    pub fn len(&self) -> (r: usize)
        ensures
            r == self@.len(),
    {
        self.content.len()
    }
}

/// The first slot takes up what its entry takes up, and the others take up
/// the rest.
pub proof fn lemma_copied_slots_first(slots: Seq<Option<Item>>)
    requires
        slots.len() > 0,
    ensures
        copied_slots(slots) == copied_slots(slots.skip(1)) + match slots[0] {
            Some(item) => item.slots(),
            None => 0,
        },
    decreases slots.len(),
{
    if slots.len() == 1 {
        assert(slots.drop_last() == Seq::<Option<Item>>::empty());
        assert(slots.skip(1) == Seq::<Option<Item>>::empty());
    } else {
        lemma_copied_slots_first(slots.drop_last());
        assert(slots.drop_last().skip(1) == slots.skip(1).drop_last());
        assert(slots.drop_last()[0] == slots[0]);
    }
}

/// One more slot takes up what its entry takes up.
pub proof fn lemma_copied_slots_push(slots: Seq<Option<Item>>, slot: Option<Item>)
    ensures
        copied_slots(slots.push(slot)) == copied_slots(slots) + match slot {
            Some(item) => item.slots(),
            None => 0,
        },
{
    assert(slots.push(slot).drop_last() == slots);
}

/// A pool is decoded from nothing but its own encoding: if a pool was
/// decoded and its count field held one more than the number of its slots,
/// then the bytes that were read are the encoding of the pool. Writing the
/// pool again gives back what was read.
pub proof fn lemma_pool_read_from_its_encoding<'a>(
    before: Cursor,
    after: Cursor,
    pool: ConstantPool<'a>,
)
    requires
        ConstantPool::decodes(before, after, Ok(pool)),
        be_value(before.front(2)) == pool@.len() + 1,
    ensures
        pool_encoding(pool@).len() <= before.remaining.len(),
        before.front(pool_encoding(pool@).len()) == pool_encoding(pool@),
        after == before.skip(pool_encoding(pool@).len() as int),
{
    let count = be_value(before.front(2));
    let n = scan_entries(before.remaining.skip(2), 0, count)->Ok_0 as int;
    lemma_scan_entries_length(before.remaining.skip(2), 0, count);
    lemma_bytes_of_value(before.front(2));
    crate::bigendian::lemma_be_bytes_len(count, 2);
    assert(before.front(2) + before.remaining.subrange(2, 2 + n) == before.front((2 + n) as nat));
}

/// The entries that are scanned are there.
pub proof fn lemma_scan_entries_length(bytes: Seq<u8>, slot: nat, count: nat)
    ensures
        scan_entries(bytes, slot, count) matches Ok(n) ==> n <= bytes.len(),
    decreases count - slot,
{
    if slot + 1 < count {
        lemma_scan_item_length(bytes);
        if let Ok(n) = scan_item(bytes) {
            let step: nat = if is_wide(bytes[0]) {
                2
            } else {
                1
            };
            lemma_scan_entries_length(bytes.skip(n as int), slot + step, count);
        }
    }
}

/// The encoding of one more slot comes behind the encodings of the slots
/// before it.
pub proof fn lemma_entries_bytes_push(slots: Seq<Option<Item>>, slot: Option<Item>)
    ensures
        entries_bytes(slots.push(slot)) == entries_bytes(slots) + match slot {
            Some(item) => item.encoding(),
            None => Seq::empty(),
        },
{
    assert(slots.push(slot).drop_last() == slots);
}

impl<'a> Decode<'a> for ConstantPool<'a> {
    /// A pool is its count field and then its entries. It is decoded exactly
    /// where all the entries that the count asks for stand, and then its
    /// slots hold the entries whose encodings were read. Otherwise the
    /// failure of the first entry that does not decode is reported, in the
    /// context of that entry's slot.
    open spec fn decodes(before: Cursor, after: Cursor, r: Result<ConstantPool<'a>, DecodeError>) -> bool {
        if before.remaining.len() < 2 {
            r matches Err(e) && e == before.eoi()
        } else {
            let count = be_value(before.front(2));
            match scan_entries(before.remaining.skip(2), 0, count) {
                Ok(n) => r matches Ok(pool) && filled(pool@) && all_valid(pool@)
                    && copied_slots(pool@) == pool@.len()
                    && count <= pool@.len() + 1 <= count + 1
                        && entries_bytes(pool@) == before.remaining.subrange(2, 2 + n as int)
                    && after == before.skip(2 + n as int),
                Err((slot, offset, f)) => r matches Err(e) && e == f.at(
                    before.skip(2 + offset as int).tagged(Context::ConstantPool(slot as u16)),
                ),
            }
        }
    }

    fn decode(decoder: &mut Decoder<'a>) -> (r: Result<ConstantPool<'a>, DecodeError>) {
        let mut cursor = decoder.clone();
        let r = Self::parse(&mut cursor);
        if r.is_ok() {
            *decoder = cursor;
        }
        r
    }
}

impl<'a> ConstantPool<'a> {
    /// Decodes a pool, wherever that ends.
    fn parse(decoder: &mut Decoder<'a>) -> (r: Result<ConstantPool<'a>, DecodeError>)
        ensures
            <Self as Decode<'a>>::decodes(old(decoder)@, final(decoder)@, r),
    {
        let ghost before = decoder@;
        let _ = decoder.file_position();
        let count = decoder.read::<u16>()?;
        let ghost start = decoder@;
        let content = read_entries(decoder, count)?;
        proof {
            let n = scan_entries(start.remaining, 0, count as nat)->Ok_0 as int;
            assert(before.remaining.skip(2).skip(n) == before.remaining.skip(2 + n));
            assert(before.remaining.skip(2).subrange(0, n) == before.remaining.subrange(2, 2 + n));
        }
        Ok(ConstantPool { content })
    }
}

/// A slot can be added behind slots that are filled the way a pool is, if it
/// is empty exactly when it follows an eight-byte number.
proof fn lemma_filled_push(slots: Seq<Option<Item>>, slot: Option<Item>)
    requires
        filled(slots),
        slot is None <==> slots.len() > 0 && slots.last() is Some && slots.last()->0.slots() == 2,
    ensures
        filled(slots.push(slot)),
{
    let longer = slots.push(slot);
    assert forall|i: int| 0 <= i < longer.len() implies ((#[trigger] longer[i]) is None <==> i > 0
        && longer[i - 1] is Some && longer[i - 1]->0.slots() == 2) by {
        if i < slots.len() {
            assert(longer[i] == slots[i]);
        }
    }
}

/// Reads the entries of a pool whose count field holds `count`. Each entry
/// is read in the context of its slot; in the end the decoder has the context
/// that it came with.
#[verifier::rlimit(60)]
fn read_entries<'a>(decoder: &mut Decoder<'a>, count: u16) -> (r: Result<
    Vec<Option<Item<'a>>>,
    DecodeError,
>)
    ensures
        match scan_entries(old(decoder)@.remaining, 0, count as nat) {
            Ok(n) => r matches Ok(content) && n <= old(decoder)@.remaining.len() && filled(
                content@,
            ) && all_valid(content@) && copied_slots(content@) == content@.len()
                && count <= content@.len() + 1 <= count + 1
                && entries_bytes(content@) == old(decoder)@.remaining.subrange(
                0,
                n as int,
            ) && final(decoder)@ == old(decoder)@.skip(n as int),
            Err((slot, offset, f)) => r matches Err(e) && e == f.at(
                old(decoder)@.skip(offset as int).tagged(Context::ConstantPool(slot as u16)),
            ),
        },
{
    let ghost start = decoder@;
    let _ = decoder.file_position();
    let context = decoder.context();
    let ghost total = scan_entries(start.remaining, 0, count as nat);
    let mut content: Vec<Option<Item<'a>>> = Vec::new();
    let ghost mut k: int = 0;
    proof {
        assert(start.remaining.skip(0) == start.remaining);
        assert(start.remaining.subrange(0, 0) == Seq::<u8>::empty());
    }
    while content.len() + 1 < count as usize
        invariant
            content@.len() <= count,
            0 <= k <= start.remaining.len(),
            start == old(decoder)@,
            start.position + start.remaining.len() <= usize::MAX,
            decoder@.remaining == start.remaining.skip(k),
            decoder@.position == start.position + k,
            total == scan_entries(start.remaining, 0, count as nat),
            match scan_entries(decoder@.remaining, content@.len(), count as nat) {
                Ok(m) => total == Ok::<nat, (nat, nat, Failure)>((k + m) as nat),
                Err((s, offset, f)) => total == Err::<nat, (nat, nat, Failure)>(
                    (s, (offset + k) as nat, f),
                ),
            },
            filled(content@),
            all_valid(content@),
            copied_slots(content@) == content@.len(),
            content@.len() > 0 && content@.last() is Some ==> content@.last()->0.slots() == 1,
            entries_bytes(content@) == start.remaining.subrange(0, k),
        decreases count - content@.len(),
    {
        let ghost here = decoder@;
        let ghost slots = content@;
        decoder.set_context(Context::ConstantPool(content.len() as u16));
        let item = match decoder.read::<Item<'a>>() {
            Ok(item) => item,
            Err(e) => {
                proof {
                    let tag = Context::ConstantPool(slots.len() as u16);
                    assert(here.tagged(tag).remaining == start.skip(k).tagged(tag).remaining);
                    assert(here.tagged(tag) == start.skip(k).tagged(tag));
                }
                return Err(e);
            },
        };
        let ghost n = scan_item(here.remaining)->Ok_0 as int;
        proof {
            lemma_scan_item_length(here.remaining);
        }
        let wide = match item {
            Item::Long(_) | Item::Double(_) => true,
            _ => false,
        };
        proof {
            assert(item.encoding()[0] == item.tag());
            assert(here.front(n as nat)[0] == here.remaining[0]);
            assert(wide == is_wide(here.remaining[0]));
            lemma_entries_bytes_push(slots, Some(item));
            lemma_copied_slots_push(slots, Some(item));
            lemma_filled_push(slots, Some(item));
            assert(start.remaining.subrange(0, k) + here.front(n as nat)
                == start.remaining.subrange(0, k + n));
            assert(start.remaining.skip(k).skip(n) == start.remaining.skip(k + n));
        }
        content.push(Some(item));
        if wide {
            proof {
                lemma_entries_bytes_push(slots.push(Some(item)), None);
                lemma_copied_slots_push(slots.push(Some(item)), None);
                lemma_filled_push(slots.push(Some(item)), None);
                assert(entries_bytes(slots.push(Some(item))) + Seq::<u8>::empty() == entries_bytes(
                    slots.push(Some(item)),
                ));
            }
            content.push(None);
        }
        proof {
            k = k + n;
        }
    }
    decoder.set_context(context);
    Ok(content)
}

/// `bytes` with the `width` bytes that stand for `value` behind them.
fn push_number(bytes: &mut Vec<u8>, value: u64, width: usize)
    requires
        width <= 8,
    ensures
        final(bytes)@ == old(bytes)@ + be_bytes(value as nat, width as nat),
{
    let mut field = write_unsigned(value as u128, width);
    bytes.append(&mut field);
}

impl<'a> Item<'a> {
    /// The bytes that stand for the entry.
    #[verifier::rlimit(40)]
    pub fn to_bytes(&self) -> (bytes: Vec<u8>)
        ensures
            bytes@ == self.encoding(),
    {
        let mut bytes: Vec<u8> = Vec::new();
        proof {
            lemma_span_values();
        }
        match self {
            Item::Utf8(v) => {
                bytes.push(1);
                let content = v.content.as_bytes();
                let mut length = write_unsigned(content.len() as u128, 2);
                bytes.append(&mut length);
                bytes.extend_from_slice(content);
                assert(bytes@ == seq![1u8] + (be_bytes(content@.len(), 2) + content@));
            },
            Item::Integer(v) => {
                bytes.push(3);
                let mut field = write_signed(v.value as i128, 4);
                bytes.append(&mut field);
            },
            Item::Float(v) => {
                bytes.push(4);
                push_number(&mut bytes, v.bits as u64, 4);
            },
            Item::Long(v) => {
                bytes.push(5);
                let mut field = write_signed(v.value as i128, 8);
                bytes.append(&mut field);
            },
            Item::Double(v) => {
                bytes.push(6);
                push_number(&mut bytes, v.bits, 8);
            },
            Item::Class(v) => {
                bytes.push(7);
                push_number(&mut bytes, v.name.get() as u64, 2);
            },
            Item::String(v) => {
                bytes.push(8);
                push_number(&mut bytes, v.string.get() as u64, 2);
            },
            Item::FieldRef(v) => {
                bytes.push(9);
                push_number(&mut bytes, v.class.get() as u64, 2);
                push_number(&mut bytes, v.name_and_type.get() as u64, 2);
                assert(bytes@ == seq![9u8] + self.body());
            },
            Item::MethodRef(v) => {
                bytes.push(10);
                push_number(&mut bytes, v.class.get() as u64, 2);
                push_number(&mut bytes, v.name_and_type.get() as u64, 2);
                assert(bytes@ == seq![10u8] + self.body());
            },
            Item::InterfaceMethodRef(v) => {
                bytes.push(11);
                push_number(&mut bytes, v.class.get() as u64, 2);
                push_number(&mut bytes, v.name_and_type.get() as u64, 2);
                assert(bytes@ == seq![11u8] + self.body());
            },
            Item::NameAndType(v) => {
                bytes.push(12);
                push_number(&mut bytes, v.name.get() as u64, 2);
                push_number(&mut bytes, v.descriptor.get() as u64, 2);
                assert(bytes@ == seq![12u8] + self.body());
            },
            Item::MethodHandle(v) => {
                bytes.push(15);
                push_number(&mut bytes, v.kind.to_tag() as u64, 1);
                push_number(&mut bytes, v.reference.get() as u64, 2);
                assert(bytes@ == seq![15u8] + self.body());
            },
            Item::MethodType(v) => {
                bytes.push(16);
                push_number(&mut bytes, v.descriptor.get() as u64, 2);
            },
            Item::Dynamic(v) => {
                bytes.push(17);
                push_number(&mut bytes, v.bootstrap_method_attr as u64, 2);
                push_number(&mut bytes, v.name_and_type.get() as u64, 2);
                assert(bytes@ == seq![17u8] + self.body());
            },
            Item::InvokeDynamic(v) => {
                bytes.push(18);
                push_number(&mut bytes, v.bootstrap_method_attr as u64, 2);
                push_number(&mut bytes, v.name_and_type.get() as u64, 2);
                assert(bytes@ == seq![18u8] + self.body());
            },
            Item::Module(v) => {
                bytes.push(19);
                push_number(&mut bytes, v.name.get() as u64, 2);
            },
            Item::Package(v) => {
                bytes.push(20);
                push_number(&mut bytes, v.name.get() as u64, 2);
            },
        }
        assert(bytes@ == seq![self.tag()] + self.body());
        bytes
    }

    /// Whether the entry takes up two slots of the pool.
    pub fn is_wide(&self) -> (r: bool)
        ensures
            r == (self.slots() == 2),
    {
        match self {
            Item::Long(_) | Item::Double(_) => true,
            _ => false,
        }
    }
}

impl<'a> Encode for Item<'a> {
    open spec fn encoding(&self) -> Seq<u8> {
        Item::encoding(*self)
    }

    fn encode<E: Encoder>(&self, encoder: &mut E) -> (r: Result<(), EncodeError>) {
        let bytes = self.to_bytes();
        encoder.write_bytes(bytes.as_slice())
    }
}

impl<'a> Item<'a> {
    /// Whether the entry is one that can stand in a pool: every entry that
    /// it refers to has a number that is not zero, and a string is valid
    /// modified UTF-8 that is not longer than its length can express. Every
    /// entry that was decoded or made from checked parts is valid.
    pub open spec fn valid(self) -> bool {
        match self {
            Item::Utf8(v) => v.content@.len() <= u16::MAX && is_mutf8(v.content@),
            Item::Integer(_) | Item::Float(_) | Item::Long(_) | Item::Double(_) => true,
            Item::Class(v) => v.name@ != 0,
            Item::String(v) => v.string@ != 0,
            Item::FieldRef(v) => v.class@ != 0 && v.name_and_type@ != 0,
            Item::MethodRef(v) => v.class@ != 0 && v.name_and_type@ != 0,
            Item::InterfaceMethodRef(v) => v.class@ != 0 && v.name_and_type@ != 0,
            Item::NameAndType(v) => v.name@ != 0 && v.descriptor@ != 0,
            Item::MethodHandle(v) => v.reference@ != 0,
            Item::MethodType(v) => v.descriptor@ != 0,
            Item::Dynamic(v) => v.name_and_type@ != 0,
            Item::InvokeDynamic(v) => v.name_and_type@ != 0,
            Item::Module(v) => v.name@ != 0,
            Item::Package(v) => v.name@ != 0,
        }
    }
}

/// A number that was written is scanned as a part of its width.
proof fn lemma_scan_number(value: nat, width: nat, rest: Seq<u8>, part: Part)
    requires
        value < crate::bigendian::span(width),
        match part {
            Part::Byte => width == 1,
            Part::Kind => width == 1 && 1 <= value <= 9,
            Part::Short => width == 2,
            Part::Reference => width == 2 && value != 0,
            Part::Word => width == 4,
            Part::Wide => width == 8,
            Part::Text => false,
        },
    ensures
        scan_part(be_bytes(value, width) + rest, part) == Ok::<nat, Failure>(width),
        (be_bytes(value, width) + rest).skip(width as int) == rest,
        be_bytes(value, width).len() == width,
{
    let bytes = be_bytes(value, width);
    crate::bigendian::lemma_be_bytes_len(value, width);
    crate::bigendian::lemma_value_of_bytes(value, width);
    assert((bytes + rest).take(width as int) == bytes);
    assert((bytes + rest).skip(width as int) == rest);
    if part == Part::Kind {
        reveal_with_fuel(be_value, 2);
        assert(bytes.drop_last() == Seq::<u8>::empty());
        assert((bytes + rest)[0] == bytes[0]);
    }
}

/// An entry is read back from its own encoding: where the encoding of a
/// valid entry stands, whatever follows it, an entry of just that length is
/// found.
pub proof fn lemma_entry_scans(item: Item, rest: Seq<u8>)
    requires
        item.valid(),
    ensures
        scan_item(item.encoding() + rest) == Ok::<nat, Failure>(item.encoding().len()),
{
    reveal(scan_item);
    lemma_span_values();
    let bytes = item.encoding() + rest;
    let body = item.body();
    assert(bytes[0] == item.tag());
    assert(bytes.skip(1) == body + rest);
    if (body + rest).len() >= 2 {
        assert(bytes.skip(2) == (body + rest).skip(1));
        assert(bytes.skip(3) == (body + rest).skip(2));
    }
    match item {
        Item::Utf8(v) => {
            let length = v.content@.len();
            lemma_scan_number(length, 2, v.content@ + rest, Part::Short);
            let field = be_bytes(length, 2);
            assert(body + rest == field + (v.content@ + rest));
            crate::bigendian::lemma_value_of_bytes(length, 2);
            assert((body + rest).take(2) == field);
            assert((body + rest).subrange(2, 2 + length as int) == v.content@);
        },
        Item::Integer(v) => {
            crate::bigendian::lemma_unsigned_range(v.value as int, 4);
            lemma_scan_number(unsigned(v.value as int, 4), 4, rest, Part::Word);
        },
        Item::Float(v) => {
            lemma_scan_number(v.bits as nat, 4, rest, Part::Word);
        },
        Item::Long(v) => {
            crate::bigendian::lemma_unsigned_range(v.value as int, 8);
            lemma_scan_number(unsigned(v.value as int, 8), 8, rest, Part::Wide);
        },
        Item::Double(v) => {
            lemma_scan_number(v.bits as nat, 8, rest, Part::Wide);
        },
        Item::Class(v) => {
            lemma_scan_number(v.name@ as nat, 2, rest, Part::Reference);
        },
        Item::String(v) => {
            lemma_scan_number(v.string@ as nat, 2, rest, Part::Reference);
        },
        Item::MethodType(v) => {
            lemma_scan_number(v.descriptor@ as nat, 2, rest, Part::Reference);
        },
        Item::Module(v) => {
            lemma_scan_number(v.name@ as nat, 2, rest, Part::Reference);
        },
        Item::Package(v) => {
            lemma_scan_number(v.name@ as nat, 2, rest, Part::Reference);
        },
        Item::FieldRef(v) => {
            lemma_scan_pair(v.class@ as nat, Part::Reference, v.name_and_type@ as nat, rest);
        },
        Item::MethodRef(v) => {
            lemma_scan_pair(v.class@ as nat, Part::Reference, v.name_and_type@ as nat, rest);
        },
        Item::InterfaceMethodRef(v) => {
            lemma_scan_pair(v.class@ as nat, Part::Reference, v.name_and_type@ as nat, rest);
        },
        Item::NameAndType(v) => {
            lemma_scan_pair(v.name@ as nat, Part::Reference, v.descriptor@ as nat, rest);
        },
        Item::MethodHandle(v) => {
            lemma_scan_pair(v.kind.tag() as nat, Part::Kind, v.reference@ as nat, rest);
        },
        Item::Dynamic(v) => {
            lemma_scan_pair(
                v.bootstrap_method_attr as nat,
                Part::Short,
                v.name_and_type@ as nat,
                rest,
            );
        },
        Item::InvokeDynamic(v) => {
            lemma_scan_pair(
                v.bootstrap_method_attr as nat,
                Part::Short,
                v.name_and_type@ as nat,
                rest,
            );
        },
    }
}

/// Two numbers that were written one behind the other, the second of them a
/// reference, are scanned as two parts.
proof fn lemma_scan_pair(first: nat, part: Part, second: nat, rest: Seq<u8>)
    requires
        match part {
            Part::Kind => 1 <= first <= 9,
            Part::Short => first <= u16::MAX,
            Part::Reference => 1 <= first <= u16::MAX,
            _ => false,
        },
        1 <= second <= u16::MAX,
    ensures
        ({
            let width: nat = if part == Part::Kind {
                1
            } else {
                2
            };
            let bytes = be_bytes(first, width) + be_bytes(second, 2) + rest;
            &&& scan_part(bytes, part) == Ok::<nat, Failure>(width)
            &&& scan_part(bytes.skip(width as int), Part::Reference) == Ok::<nat, Failure>(2)
            &&& (be_bytes(first, width) + be_bytes(second, 2)).len() == width + 2
        }),
{
    lemma_span_values();
    let width: nat = if part == Part::Kind {
        1
    } else {
        2
    };
    lemma_scan_number(first, width, be_bytes(second, 2) + rest, part);
    lemma_scan_number(second, 2, rest, Part::Reference);
    assert(be_bytes(first, width) + be_bytes(second, 2) + rest == be_bytes(first, width) + (
    be_bytes(second, 2) + rest));
}

} // verus!

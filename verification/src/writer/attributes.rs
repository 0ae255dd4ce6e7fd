//! Writers for attributes.
//!
//! An attribute is the number of its name in the constant pool, the length of
//! its content in four bytes, and the content. The writer for one attribute
//! is either at its start or at its end: an attribute can be written only at
//! the start, and only a writer that is at its end can be finished.

pub mod code;

use crate::bigendian::{be_bytes, lemma_be_bytes_len, lemma_be_value_bound, lemma_bytes_of_value};
use crate::error::{Context, EncodeError, EncodeErrorKind};
use crate::mutf8::MStr;
use crate::reader::attributes::{attribute_failure, Attribute};
use crate::reader::cpool::{index_of, Index, Item, Utf8};
use crate::reader::decoding::{Cursor, Decode};
use crate::writer::encoding::{Encode, LengthPrefixedEncoder, LengthPrefixed};
use crate::writer::{ClassWriter, Layout};
use std::marker::PhantomData;
use vstd::prelude::*;

verus! {

/// Something that holds the class writer while a part of the class is
/// written.
pub trait EncoderContext: Sized {
    /// The state of the class writer that is held.
    spec fn layout(&self) -> Layout;

    /// Whether writing can go on.
    spec fn wf(&self) -> bool;

    /// The class writer. Whoever borrows it must leave it well formed and
    /// with a tail that is not shorter than before.
    fn class_writer(&mut self) -> (r: &mut ClassWriter)
        requires
            old(self).wf(),
        ensures
            r.wf(),
            r@ == old(self).layout(),
            final(self).layout() == final(r)@,
            final(r).wf() && final(r)@.tail.len() >= r@.tail.len() ==> final(self).wf(),
    ;
}

impl EncoderContext for ClassWriter {
    open spec fn layout(&self) -> Layout {
        self@
    }

    open spec fn wf(&self) -> bool {
        ClassWriter::wf(self)
    }

    fn class_writer(&mut self) -> (r: &mut ClassWriter) {
        self
    }
}

/// Something that names an entry of kind `T` in the pool of the class that
/// is being written, and puts the entry there if it is not there yet.
pub trait Insertable<T>: Sized {
    /// The entry that is added to the pool, if one is added.
    spec fn entry(self) -> Option<Seq<u8>>;

    /// The number of the entry, in a pool whose count field holds `slots`.
    spec fn number(self, slots: nat) -> u16;

    /// Why the entry cannot be added to a pool whose count field holds
    /// `slots`, if it cannot.
    spec fn refused(self, slots: nat) -> Option<EncodeError>;

    fn insert<Ctx: EncoderContext>(self, context: &mut Ctx) -> (r: Result<Index<T>, EncodeError>)
        requires
            old(context).wf(),
        ensures
            final(context).wf(),
            match r {
                Ok(index) => self.refused(old(context).layout().slots) is None && index@
                    == self.number(old(context).layout().slots) && final(context).layout()
                    == match self.entry() {
                    Some(entry) => old(context).layout().grown(entry, 1),
                    None => old(context).layout(),
                },
                Err(e) => self.refused(old(context).layout().slots) == Some(e)
                    && final(context).layout() == old(context).layout(),
            },
    ;
}

impl<T> Insertable<T> for Index<T> {
    /// The entry is in the pool already.
    open spec fn entry(self) -> Option<Seq<u8>> {
        None
    }

    open spec fn number(self, slots: nat) -> u16 {
        self@
    }

    open spec fn refused(self, slots: nat) -> Option<EncodeError> {
        None
    }

    fn insert<Ctx: EncoderContext>(self, context: &mut Ctx) -> (r: Result<Index<T>, EncodeError>) {
        Ok(self)
    }
}

impl<'a> Insertable<Utf8<'a>> for MStr<'a> {
    /// The string is added as a new entry.
    open spec fn entry(self) -> Option<Seq<u8>> {
        Some(Item::Utf8(Utf8 { content: self }).encoding())
    }

    /// A new entry gets the next free number.
    open spec fn number(self, slots: nat) -> u16 {
        slots as u16
    }

    /// The string must not be longer than its length field can express, and
    /// the pool must have a free slot.
    open spec fn refused(self, slots: nat) -> Option<EncodeError> {
        if self@.len() > u16::MAX {
            Some(
                EncodeError {
                    kind: EncodeErrorKind::TooManyBytes,
                    position: None,
                    context: Context::ConstantPool(slots as u16),
                },
            )
        } else if slots + 1 > u16::MAX {
            Some(
                EncodeError {
                    kind: EncodeErrorKind::TooManyItems,
                    position: None,
                    context: Context::ConstantPool(slots as u16),
                },
            )
        } else {
            None
        }
    }

    fn insert<Ctx: EncoderContext>(self, context: &mut Ctx) -> (r: Result<
        Index<Utf8<'a>>,
        EncodeError,
    >) {
        let item = Item::Utf8(Utf8 { content: self });
        let class_writer = context.class_writer();
        proof {
            class_writer.lemma_head();
        }
        match class_writer.insert_constant(&item) {
            Ok(index) => Ok(index_of(index.get() as u64)),
            Err(e) => Err(e),
        }
    }
}

/// The state of a writer that has not written its attribute yet.
#[derive(Debug)]
pub struct Start;

/// The state of a writer that has written its attribute.
#[derive(Debug)]
pub struct End;

/// A state of an attribute writer.
pub trait State {

}

impl State for Start {

}

impl State for End {

}

/// A writer that is made from a context and starts out in its first state.
pub trait WriteAssembler: Sized {
    type Context;

    /// The context that the writer holds.
    spec fn context(&self) -> Self::Context;

    /// Makes a writer that holds `context`, if one can be made.
    fn new(context: Self::Context) -> (r: Result<Self, EncodeError>)
        ensures
            r matches Ok(w) ==> w.context() == context,
    ;
}

/// A writer that has reached its last state and hands its context back.
pub trait WriteDisassembler: Sized {
    type Context;

    /// The context that the writer holds.
    spec fn context(&self) -> Self::Context;

    /// Hands back the context that the writer holds, if the writer can be
    /// finished.
    fn finish(self) -> (r: Result<Self::Context, EncodeError>)
        ensures
            r matches Ok(context) ==> context == self.context(),
    ;
}

/// The writer for one attribute.
#[derive(Debug)]
pub struct AttributeWriter<Ctx, S: State> {
    context: Ctx,
    marker: PhantomData<S>,
}

impl<Ctx: EncoderContext, S: State> AttributeWriter<Ctx, S> {
    /// The context that the writer holds.
    pub closed spec fn held(&self) -> Ctx {
        self.context
    }
}

/// The bytes of an attribute with a name that has number `name` and with
/// content `content`.
pub open spec fn attribute_bytes(name: u16, content: Seq<u8>) -> Seq<u8> {
    be_bytes(name as nat, 2) + be_bytes(content.len(), 4) + content
}

/// An attribute is decoded from nothing but its own bytes: if an attribute
/// was decoded, then what was read is the name and the content of the
/// attribute, written as an attribute. Writing a decoded attribute again as
/// it is gives back what was read.
pub proof fn lemma_attribute_read_from_its_bytes<'a>(
    before: Cursor,
    after: Cursor,
    attribute: Attribute<'a>,
)
    requires
        Attribute::decodes(before, after, Ok(attribute)),
    ensures
        ({
            let bytes = attribute_bytes(attribute@.name, attribute@.content.remaining);
            bytes.len() <= before.remaining.len() && before.front(bytes.len()) == bytes && after
                == before.skip(bytes.len() as int)
        }),
{
    let content = attribute@.content.remaining;
    let length = before.remaining.subrange(2, 6);
    assert(attribute_failure(before.remaining) is None);
    lemma_bytes_of_value(before.front(2));
    lemma_bytes_of_value(length);
    lemma_be_value_bound(before.front(2));
    crate::bigendian::lemma_span_values();
    lemma_be_bytes_len(attribute@.name as nat, 2);
    lemma_be_bytes_len(content.len(), 4);
    assert(content == before.remaining.subrange(6, 6 + content.len() as int));
    assert(before.front(2) + length + content == before.front((6 + content.len()) as nat));
}

/// The failure of an attribute whose content is longer than its length
/// field can express.
pub open spec fn too_long() -> EncodeError {
    EncodeError {
        kind: EncodeErrorKind::TooManyBytes,
        position: None,
        context: Context::AttributeContent,
    }
}

impl<Ctx: EncoderContext> AttributeWriter<Ctx, Start> {
    /// Writes an attribute whose content has been encoded already: the name
    /// is put into the pool if it is not there, and name, length and content
    /// are appended to the tail. Nothing is written if the content is longer
    /// than the length can express or if the name cannot be put into the
    /// pool.
    pub fn raw_attribute<'n, I>(self, name: I, bytes: &[u8]) -> (r: Result<
        AttributeWriter<Ctx, End>,
        EncodeError,
    >) where I: Insertable<Utf8<'n>>
        requires
            self.held().wf(),
        ensures
            match r {
                Ok(w) => bytes@.len() <= u32::MAX && name.refused(self.held().layout().slots)
                    is None && w.held().wf() && w.held().layout() == (match name.entry() {
                    Some(entry) => self.held().layout().grown(entry, 1),
                    None => self.held().layout(),
                }).appended(
                    attribute_bytes(name.number(self.held().layout().slots), bytes@),
                ),
                Err(e) => if bytes@.len() > u32::MAX {
                    e == too_long()
                } else {
                    name.refused(self.held().layout().slots) == Some(e)
                },
            },
    {
        if bytes.len() > u32::MAX as usize {
            return Err(
                EncodeError::with_context(EncodeErrorKind::TooManyBytes, Context::AttributeContent),
            );
        }
        let length = bytes.len() as u32;
        let mut context = self.context;
        let index = name.insert(&mut context)?;
        let ghost inserted = context.layout();
        let class_writer = context.class_writer();
        let _ = class_writer.write(index);
        let _ = class_writer.write(length);
        let _ = class_writer.write(bytes);
        proof {
            assert(inserted.tail + index.encoding() + length.encoding() + bytes@ == inserted.tail
                + attribute_bytes(index@, bytes@));
        }
        Ok(AttributeWriter { context, marker: PhantomData })
    }
}

impl AttributeWriter<ClassWriter, Start> {
    /// Starts an attribute whose content is written piece by piece: the name
    /// is put into the pool if it is not there and appended to the tail, and
    /// the length field is reserved behind it. The encoder that is handed out
    /// counts the content and fills in the length when it is finished.
    pub fn attribute_writer<'n, I>(self, name: I) -> (r: Result<
        LengthPrefixedEncoder,
        EncodeError,
    >) where I: Insertable<Utf8<'n>>

        requires
            self.held().wf(),
        ensures
            match r {
                Ok(encoder) => name.refused(self.held()@.slots) is None && encoder.wf()
                    && encoder@ == ({
                    let inserted = match name.entry() {
                        Some(entry) => self.held()@.grown(entry, 1),
                        None => self.held()@,
                    };
                    LengthPrefixed {
                        writer: inserted.appended(
                            be_bytes(name.number(self.held()@.slots) as nat, 2) + be_bytes(0, 4),
                        ),
                        offset: inserted.tail.len() + 2,
                        length: 0,
                        errored: false,
                    }
                }),
                Err(e) => name.refused(self.held()@.slots) == Some(e),
            },
    {
        let mut context = self.context;
        let index = name.insert(&mut context)?;
        let ghost inserted = context@;
        let _ = context.write(index);
        proof {
            lemma_be_bytes_len(index@ as nat, 2);
            assert(inserted.tail + index.encoding() + be_bytes(0, 4) == inserted.tail + (
            index.encoding() + be_bytes(0, 4)));
        }
        LengthPrefixedEncoder::new(context)
    }
}

impl<Ctx: EncoderContext> WriteAssembler for AttributeWriter<Ctx, Start> {
    type Context = Ctx;

    open spec fn context(&self) -> Ctx {
        self.held()
    }

    /// A writer at its start can always be made.
    fn new(context: Ctx) -> (r: Result<AttributeWriter<Ctx, Start>, EncodeError>)
        ensures
            r matches Ok(w) && w.held() == context,
    {
        Ok(AttributeWriter { context, marker: PhantomData })
    }
}

impl<Ctx: EncoderContext> WriteDisassembler for AttributeWriter<Ctx, End> {
    type Context = Ctx;

    open spec fn context(&self) -> Ctx {
        self.held()
    }

    /// A writer at its end can always be finished.
    fn finish(self) -> (r: Result<Ctx, EncodeError>)
        ensures
            r matches Ok(context) && context == self.held(),
    {
        Ok(self.context)
    }
}

} // verus!

//! The output side: byte sinks and the values that can be written to them.
//!
//! Three kinds of sink share one interface. A [`VecEncoder`] grows a buffer at
//! its end. An [`InsertingEncoder`] splices bytes into the middle of a buffer
//! and moves what stands behind them. A [`ReplacingEncoder`] overwrites bytes
//! that were reserved earlier and never changes the length of the buffer.

use crate::bigendian::{be_bytes, unsigned, write_signed, write_unsigned};
use crate::bigendian::{lemma_be_bytes_len, lemma_span_values};
use crate::error::{Context, EncodeError, EncodeErrorKind};
use crate::writer::{lemma_keeps_transitive, ClassWriter, Layout};
use std::marker::PhantomData;
use vstd::prelude::*;

verus! {

/// A sink for bytes.
pub trait Encoder: Sized {
    /// Whether the sink can be handed `n` more bytes. Handing a sink bytes
    /// that it has no room for is a mistake of the caller, not a failure that
    /// the sink reports.
    spec fn fits(self, n: nat) -> bool;

    /// Whether handing `bytes` to the sink `before` may leave it as `after`
    /// and return `r`.
    spec fn wrote(before: Self, bytes: Seq<u8>, after: Self, r: Result<(), EncodeError>) -> bool;

    fn write_bytes(&mut self, bytes: &[u8]) -> (r: Result<(), EncodeError>)
        requires
            old(self).fits(bytes@.len()),
        ensures
            Self::wrote(*old(self), bytes@, *final(self), r),
    ;
}

/// A value with a byte encoding.
pub trait Encode {
    /// The bytes that stand for the value.
    spec fn encoding(&self) -> Seq<u8>;

    /// Hands the encoding to `encoder` in one piece.
    fn encode<E: Encoder>(&self, encoder: &mut E) -> (r: Result<(), EncodeError>)
        requires
            old(encoder).fits(self.encoding().len()),
        ensures
            E::wrote(*old(encoder), self.encoding(), *final(encoder), r),
    ;
}

impl<T: Encode> Encode for &T {
    open spec fn encoding(&self) -> Seq<u8> {
        (**self).encoding()
    }

    fn encode<E: Encoder>(&self, encoder: &mut E) -> (r: Result<(), EncodeError>) {
        (*self).encode(encoder)
    }
}

impl Encode for &[u8] {
    open spec fn encoding(&self) -> Seq<u8> {
        (**self)@
    }

    fn encode<E: Encoder>(&self, encoder: &mut E) -> (r: Result<(), EncodeError>) {
        encoder.write_bytes(self)
    }
}

impl Encode for u8 {
    open spec fn encoding(&self) -> Seq<u8> {
        be_bytes(*self as nat, 1)
    }

    fn encode<E: Encoder>(&self, encoder: &mut E) -> (r: Result<(), EncodeError>) {
        let bytes = write_unsigned(*self as u128, 1);
        encoder.write_bytes(bytes.as_slice())
    }
}

impl Encode for i8 {
    open spec fn encoding(&self) -> Seq<u8> {
        be_bytes(unsigned(*self as int, 1), 1)
    }

    fn encode<E: Encoder>(&self, encoder: &mut E) -> (r: Result<(), EncodeError>) {
        proof {
            lemma_span_values();
        }
        let bytes = write_signed(*self as i128, 1);
        encoder.write_bytes(bytes.as_slice())
    }
}

impl Encode for u16 {
    open spec fn encoding(&self) -> Seq<u8> {
        be_bytes(*self as nat, 2)
    }

    fn encode<E: Encoder>(&self, encoder: &mut E) -> (r: Result<(), EncodeError>) {
        let bytes = write_unsigned(*self as u128, 2);
        encoder.write_bytes(bytes.as_slice())
    }
}

impl Encode for i16 {
    open spec fn encoding(&self) -> Seq<u8> {
        be_bytes(unsigned(*self as int, 2), 2)
    }

    fn encode<E: Encoder>(&self, encoder: &mut E) -> (r: Result<(), EncodeError>) {
        proof {
            lemma_span_values();
        }
        let bytes = write_signed(*self as i128, 2);
        encoder.write_bytes(bytes.as_slice())
    }
}

impl Encode for u32 {
    open spec fn encoding(&self) -> Seq<u8> {
        be_bytes(*self as nat, 4)
    }

    fn encode<E: Encoder>(&self, encoder: &mut E) -> (r: Result<(), EncodeError>) {
        let bytes = write_unsigned(*self as u128, 4);
        encoder.write_bytes(bytes.as_slice())
    }
}

impl Encode for i32 {
    open spec fn encoding(&self) -> Seq<u8> {
        be_bytes(unsigned(*self as int, 4), 4)
    }

    fn encode<E: Encoder>(&self, encoder: &mut E) -> (r: Result<(), EncodeError>) {
        proof {
            lemma_span_values();
        }
        let bytes = write_signed(*self as i128, 4);
        encoder.write_bytes(bytes.as_slice())
    }
}

impl Encode for u64 {
    open spec fn encoding(&self) -> Seq<u8> {
        be_bytes(*self as nat, 8)
    }

    fn encode<E: Encoder>(&self, encoder: &mut E) -> (r: Result<(), EncodeError>) {
        let bytes = write_unsigned(*self as u128, 8);
        encoder.write_bytes(bytes.as_slice())
    }
}

impl Encode for i64 {
    open spec fn encoding(&self) -> Seq<u8> {
        be_bytes(unsigned(*self as int, 8), 8)
    }

    fn encode<E: Encoder>(&self, encoder: &mut E) -> (r: Result<(), EncodeError>) {
        proof {
            lemma_span_values();
        }
        let bytes = write_signed(*self as i128, 8);
        encoder.write_bytes(bytes.as_slice())
    }
}

impl Encode for u128 {
    open spec fn encoding(&self) -> Seq<u8> {
        be_bytes(*self as nat, 16)
    }

    fn encode<E: Encoder>(&self, encoder: &mut E) -> (r: Result<(), EncodeError>) {
        let bytes = write_unsigned(*self, 16);
        encoder.write_bytes(bytes.as_slice())
    }
}

impl Encode for i128 {
    open spec fn encoding(&self) -> Seq<u8> {
        be_bytes(unsigned(*self as int, 16), 16)
    }

    fn encode<E: Encoder>(&self, encoder: &mut E) -> (r: Result<(), EncodeError>) {
        proof {
            lemma_span_values();
        }
        let bytes = write_signed(*self, 16);
        encoder.write_bytes(bytes.as_slice())
    }
}

/// A position in an output buffer, or the distance between two such positions.
#[derive(Debug, Clone, Copy, PartialEq, Eq, Structural)]
pub struct Offset(pub usize);

impl Offset {
    pub fn new(position: usize) -> (r: Offset)
        ensures
            r.0 == position,
    {
        Offset(position)
    }

    /// The position as a number of bytes.
    pub fn get(self) -> (r: usize)
        ensures
            r == self.0,
    {
        self.0
    }

    /// The position `by` bytes further on.
    pub fn offset(self, by: usize) -> (r: Offset)
        requires
            self.0 + by <= usize::MAX,
        ensures
            r.0 == self.0 + by,
    {
        Offset(self.0 + by)
    }

    /// The position that lies `by` behind this one.
    pub fn add(self, by: Offset) -> (r: Offset)
        requires
            self.0 + by.0 <= usize::MAX,
        ensures
            r.0 == self.0 + by.0,
    {
        Offset(self.0 + by.0)
    }

    /// The distance from `by` to this position, which must not lie before `by`.
    pub fn sub(self, by: Offset) -> (r: Offset)
        requires
            by.0 <= self.0,
        ensures
            r.0 == self.0 - by.0,
    {
        Offset(self.0 - by.0)
    }
}

/// `buffer` with `bytes` spliced in at `at`: what stood at and behind `at`
/// moves back by the length of `bytes`.
pub open spec fn spliced(buffer: Seq<u8>, at: int, bytes: Seq<u8>) -> Seq<u8> {
    buffer.take(at) + bytes + buffer.skip(at)
}

/// `buffer` with the bytes from `at` on overwritten by `bytes`; the length
/// stays what it was.
pub open spec fn patched(buffer: Seq<u8>, at: int, bytes: Seq<u8>) -> Seq<u8> {
    buffer.take(at) + bytes + buffer.skip(at + bytes.len())
}

/// An output buffer that grows at its end.
#[derive(Debug)]
pub struct VecEncoder {
    buf: Vec<u8>,
}

impl View for VecEncoder {
    type V = Seq<u8>;

    closed spec fn view(&self) -> Seq<u8> {
        self.buf@
    }
}

impl Clone for VecEncoder {
    fn clone(&self) -> (r: VecEncoder)
        ensures
            r@ == self@,
    {
        VecEncoder { buf: self.buf.clone() }
    }
}

impl VecEncoder {
    /// An empty buffer with room for `capacity` bytes.
    pub fn with_capacity(capacity: usize) -> (r: VecEncoder)
        ensures
            r@ == Seq::<u8>::empty(),
    {
        VecEncoder { buf: Vec::with_capacity(capacity) }
    }

    /// The position behind the last byte written.
    pub fn position(&self) -> (r: Offset)
        ensures
            r.0 == self@.len(),
    {
        Offset::new(self.buf.len())
    }

    pub fn into_inner(self) -> (r: Vec<u8>)
        ensures
            r@ == self@,
    {
        self.buf
    }

    /// Appends the encoding of `value` and hands the buffer back for the next
    /// write.
    pub fn write<T: Encode>(&mut self, value: T) -> (r: Result<&mut Self, EncodeError>)
        ensures
            r matches Ok(w) && w@ == old(self)@ + value.encoding() && *final(w) == *final(self),
    {
        let _ = value.encode(self);
        Ok(self)
    }

    /// A sink that splices what it is handed into this buffer, starting at
    /// `at`. When the sink is given up the buffer holds what the sink held.
    pub fn inserting(&mut self, at: Offset) -> (r: InsertingEncoder<'_>)
        ensures
            r.buf@ == old(self)@,
            r.cursor == at.0,
            final(self)@ == final(r.buf)@,
    {
        InsertingEncoder { buf: &mut self.buf, cursor: at.0 }
    }

    /// A sink that overwrites this buffer with what it is handed, starting at
    /// `at`. When the sink is given up the buffer holds what the sink held.
    pub fn replacing(&mut self, at: Offset) -> (r: ReplacingEncoder<'_>)
        ensures
            r.buf@ == old(self)@,
            r.cursor == at.0,
            final(self)@ == final(r.buf)@,
    {
        ReplacingEncoder { buf: &mut self.buf, cursor: at.0 }
    }
}

impl Encoder for VecEncoder {
    /// There is always room at the end.
    open spec fn fits(self, n: nat) -> bool {
        true
    }

    /// The bytes are appended. This never fails.
    open spec fn wrote(
        before: VecEncoder,
        bytes: Seq<u8>,
        after: VecEncoder,
        r: Result<(), EncodeError>,
    ) -> bool {
        r is Ok && after@ == before@ + bytes
    }

    fn write_bytes(&mut self, bytes: &[u8]) -> (r: Result<(), EncodeError>) {
        self.buf.extend_from_slice(bytes);
        assert(self.buf@ == old(self).buf@ + bytes@);
        Ok(())
    }
}

/// The encoding of `value`, on its own.
pub fn encoding_of<T: Encode>(value: &T) -> (bytes: Vec<u8>)
    ensures
        bytes@ == value.encoding(),
{
    let mut scratch = VecEncoder::with_capacity(0);
    let _ = value.encode(&mut scratch);
    assert(scratch@ == Seq::<u8>::empty() + value.encoding());
    scratch.into_inner()
}

/// A sink that overwrites part of a buffer, from `cursor` on. It cannot make
/// the buffer longer.
#[derive(Debug)]
pub struct ReplacingEncoder<'a> {
    pub buf: &'a mut Vec<u8>,
    pub cursor: usize,
}

impl<'a> Encoder for ReplacingEncoder<'a> {
    /// Only bytes that exist can be replaced.
    open spec fn fits(self, n: nat) -> bool {
        self.cursor + n <= self.buf@.len()
    }

    /// The bytes at the cursor are overwritten and the cursor moves behind
    /// them. This never fails.
    open spec fn wrote(
        before: ReplacingEncoder<'a>,
        bytes: Seq<u8>,
        after: ReplacingEncoder<'a>,
        r: Result<(), EncodeError>,
    ) -> bool {
        r is Ok && after.buf@ == patched(before.buf@, before.cursor as int, bytes) && after.cursor
            == before.cursor + bytes.len()
    }

    fn write_bytes(&mut self, bytes: &[u8]) -> (r: Result<(), EncodeError>)
        ensures
            *final(final(self).buf) == *final(old(self).buf),
    {
        let ghost start = self.buf@;
        let _ = self.buf.len();
        let mut i: usize = 0;
        while i < bytes.len()
            invariant
                i <= bytes@.len(),
                start.len() <= usize::MAX,
                old(self).cursor + bytes@.len() <= start.len(),
                start == old(self).buf@,
                self.cursor == old(self).cursor + i,
                self.buf@ == patched(start, old(self).cursor as int, bytes@.take(i as int)),
                *final(self.buf) == *final(old(self).buf),
            decreases bytes@.len() - i,
        {
            let at = self.cursor;
            self.buf[at] = bytes[i];
            self.cursor += 1;
            i += 1;
        }
        assert(bytes@.take(i as int) == bytes@);
        Ok(())
    }
}

impl<'a> ReplacingEncoder<'a> {
    /// Overwrites the bytes at the cursor with the encoding of `value` and
    /// hands the sink back for the next write.
    pub fn write<T: Encode>(&mut self, value: T) -> (r: Result<&mut Self, EncodeError>)
        requires
            old(self).fits(value.encoding().len()),
        ensures
            r matches Ok(w) && w.buf@ == patched(
                old(self).buf@,
                old(self).cursor as int,
                value.encoding(),
            ) && w.cursor == old(self).cursor + value.encoding().len()
                && *final(w.buf) == *final(old(self).buf) && *final(w) == *final(self),
    {
        let bytes = encoding_of(&value);
        let _ = self.write_bytes(bytes.as_slice());
        Ok(self)
    }
}

/// A sink that splices bytes into a buffer at `cursor`. What stood at and
/// behind the cursor is kept and moves back.
#[derive(Debug)]
pub struct InsertingEncoder<'a> {
    pub buf: &'a mut Vec<u8>,
    pub cursor: usize,
}

impl<'a> InsertingEncoder<'a> {
    /// The position at which the next byte will be inserted.
    pub fn position(&self) -> (r: Offset)
        ensures
            r.0 == self.cursor,
    {
        Offset::new(self.cursor)
    }
}

impl<'a> Encoder for InsertingEncoder<'a> {
    /// The cursor has to lie inside the buffer or at its end.
    open spec fn fits(self, n: nat) -> bool {
        self.cursor <= self.buf@.len()
    }

    /// The bytes are spliced in at the cursor and the cursor moves behind
    /// them. This never fails.
    open spec fn wrote(
        before: InsertingEncoder<'a>,
        bytes: Seq<u8>,
        after: InsertingEncoder<'a>,
        r: Result<(), EncodeError>,
    ) -> bool {
        r is Ok && after.buf@ == spliced(before.buf@, before.cursor as int, bytes) && after.cursor
            == before.cursor + bytes.len()
    }

    fn write_bytes(&mut self, bytes: &[u8]) -> (r: Result<(), EncodeError>)
        ensures
            *final(final(self).buf) == *final(old(self).buf),
    {
        let mut v = self.buf.split_off(self.cursor);
        self.buf.extend_from_slice(bytes);
        assert(self.buf@ == old(self).buf@.take(old(self).cursor as int) + bytes@);
        self.buf.append(&mut v);
        let _ = self.buf.len();
        self.cursor += bytes.len();
        Ok(())
    }
}

impl<'a> InsertingEncoder<'a> {
    /// Splices the encoding of `value` in at the cursor and hands the sink
    /// back for the next write.
    pub fn write<T: Encode>(&mut self, value: T) -> (r: Result<&mut Self, EncodeError>)
        requires
            old(self).fits(value.encoding().len()),
        ensures
            r matches Ok(w) && w.buf@ == spliced(
                old(self).buf@,
                old(self).cursor as int,
                value.encoding(),
            ) && w.cursor == old(self).cursor + value.encoding().len()
                && *final(w.buf) == *final(old(self).buf) && *final(w) == *final(self),
    {
        let bytes = encoding_of(&value);
        let _ = self.write_bytes(bytes.as_slice());
        Ok(self)
    }
}

/// What a [`LengthPrefixedEncoder`] stands for.
pub struct LengthPrefixed {
    /// The class that is being written.
    pub writer: Layout,
    /// Where in the tail the four bytes of the length field stand.
    pub offset: nat,
    /// The number of bytes written through the encoder so far.
    pub length: nat,
    /// Whether a write has failed. Nothing more can be written then.
    pub errored: bool,
}

/// The failure that is not tied to any place in the class.
pub open spec fn failure(kind: EncodeErrorKind) -> EncodeError {
    EncodeError { kind, position: None, context: Context::Nowhere }
}

/// An encoder that writes a region of bytes behind a four-byte field which
/// holds the length of the region. The field is reserved when the encoder is
/// made and filled in when it is finished.
#[derive(Debug)]
pub struct LengthPrefixedEncoder {
    class_writer: ClassWriter,
    /// The offset of the byte counter starting at the pool end.
    length_offset: Offset,
    /// The amount of bytes written yet.
    length: u32,
    errored: bool,
}

impl View for LengthPrefixedEncoder {
    type V = LengthPrefixed;

    closed spec fn view(&self) -> LengthPrefixed {
        LengthPrefixed {
            writer: self.class_writer@,
            offset: self.length_offset.0 as nat,
            length: self.length as nat,
            errored: self.errored,
        }
    }
}

impl LengthPrefixedEncoder {
    /// The class writer is well formed and the length field lies inside its
    /// tail. `new` makes an encoder for which this holds and writing keeps
    /// it so.
    pub open spec fn wf(&self) -> bool {
        self.writer_wf() && self@.offset + 4 <= self@.writer.tail.len()
    }

    /// The class writer is well formed.
    pub closed spec fn writer_wf(&self) -> bool {
        self.class_writer.wf()
    }

    /// Reserves the length field at the end of the tail.
    pub fn new(class_writer: ClassWriter) -> (r: Result<LengthPrefixedEncoder, EncodeError>)
        requires
            class_writer.wf(),
        ensures
            r matches Ok(e) && e.wf() && e@ == (LengthPrefixed {
                writer: class_writer@.appended(be_bytes(0, 4)),
                offset: class_writer@.tail.len(),
                length: 0,
                errored: false,
            }),
    {
        let mut class_writer = class_writer;
        let length_offset = class_writer.position();
        let _ = class_writer.write(0u32);
        proof {
            lemma_be_bytes_len(0, 4);
        }
        Ok(LengthPrefixedEncoder { class_writer, length_offset, length: 0, errored: false })
    }

    /// The class writer, for what is written beside the counted region.
    /// Bytes that reach the class writer this way are not counted.
    pub fn class_writer(&mut self) -> (r: &mut ClassWriter)
        ensures
            r@ == old(self)@.writer,
            old(self).wf() ==> r.wf(),
            final(self)@ == (LengthPrefixed { writer: final(r)@, ..old(self)@ }),
            final(r).wf() && old(self)@.offset + 4 <= final(r)@.tail.len() ==> final(self).wf(),
    {
        &mut self.class_writer
    }

    /// Fills in the length field and hands the class writer back. An encoder
    /// on which a write has failed cannot be finished.
    pub fn finish(self) -> (r: Result<ClassWriter, EncodeError>)
        requires
            self.wf(),
        ensures
            match r {
                Ok(w) => !self@.errored && w.wf() && w@ == self@.writer.repaired(
                    self@.offset as int,
                    be_bytes(self@.length, 4),
                ),
                Err(e) => self@.errored && e == failure(EncodeErrorKind::ErroredBefore),
            },
    {
        if self.errored {
            return Err(
                EncodeError::with_context(EncodeErrorKind::ErroredBefore, Context::Nowhere),
            );
        }
        let mut class_writer = self.class_writer;
        let field = write_unsigned(self.length as u128, 4);
        proof {
            lemma_be_bytes_len(self.length as nat, 4);
        }
        class_writer.patch(self.length_offset, field.as_slice());
        Ok(class_writer)
    }

    /// Writes the encoding of `value` and hands the encoder back for the next
    /// write.
    pub fn write<T: Encode>(&mut self, value: T) -> (r: Result<&mut Self, EncodeError>)
        requires
            old(self).wf(),
        ensures
            match r {
                Ok(w) => Self::wrote(*old(self), value.encoding(), *w, Ok(())) && *final(w)
                    == *final(self),
                Err(e) => Self::wrote(*old(self), value.encoding(), *final(self), Err(e)),
            },
    {
        match value.encode(self) {
            Ok(()) => Ok(self),
            Err(e) => Err(e),
        }
    }
}

impl Encoder for LengthPrefixedEncoder {
    /// A well-formed encoder takes any number of bytes; whether it can count
    /// them is found out when they are written.
    open spec fn fits(self, n: nat) -> bool {
        self.wf()
    }

    /// The bytes are appended to the tail and counted, unless the count would
    /// no longer fit the length field: then nothing is written, the write
    /// fails with `TooManyBytes`, and every later write fails with
    /// `ErroredBefore`.
    open spec fn wrote(
        before: LengthPrefixedEncoder,
        bytes: Seq<u8>,
        after: LengthPrefixedEncoder,
        r: Result<(), EncodeError>,
    ) -> bool {
        after.wf() && if before@.errored {
            r == Err::<(), EncodeError>(failure(EncodeErrorKind::ErroredBefore)) && after@
                == before@
        } else if before@.length + bytes.len() > u32::MAX {
            r == Err::<(), EncodeError>(failure(EncodeErrorKind::TooManyBytes)) && after@ == (
            LengthPrefixed { errored: true, ..before@ })
        } else {
            r is Ok && after@ == (LengthPrefixed {
                writer: before@.writer.appended(bytes),
                length: before@.length + bytes.len(),
                ..before@
            })
        }
    }

    fn write_bytes(&mut self, bytes: &[u8]) -> (r: Result<(), EncodeError>) {
        if self.errored {
            return Err(
                EncodeError::with_context(EncodeErrorKind::ErroredBefore, Context::Nowhere),
            );
        }
        if bytes.len() > (u32::MAX - self.length) as usize {
            self.errored = true;
            return Err(
                EncodeError::with_context(EncodeErrorKind::TooManyBytes, Context::Nowhere),
            );
        }
        let _ = self.class_writer.write_bytes(bytes);
        self.length = self.length + bytes.len() as u32;
        Ok(())
    }
}

/// A writer for one item of a counted sequence. It is handed the class writer
/// when the item begins and hands it back when the item is complete.
pub trait WriteBuilder: Sized {
    /// The state of the class writer that the builder holds.
    spec fn layout(&self) -> Layout;

    /// The position in the tail at which the item starts.
    spec fn mark(&self) -> nat;

    /// Whether the builder is in a state from which it can go on writing.
    spec fn wf(&self) -> bool;

    /// Begins an item at the end of the tail. What the tail holds is kept.
    fn new(class_writer: ClassWriter) -> (r: Result<Self, EncodeError>)
        requires
            class_writer.wf(),
        ensures
            r matches Ok(builder) ==> builder.wf() && builder.mark() == class_writer@.tail.len()
                && builder.layout().keeps(class_writer@, builder.mark()),
    ;

    /// Completes the item. What the tail held in front of the item is still
    /// there.
    fn finish(self) -> (r: Result<ClassWriter, EncodeError>)
        requires
            self.wf(),
        ensures
            r matches Ok(class_writer) ==> class_writer.wf() && class_writer@.keeps(
                self.layout(),
                self.mark(),
            ),
    ;
}

impl WriteBuilder for LengthPrefixedEncoder {
    open spec fn layout(&self) -> Layout {
        self@.writer
    }

    open spec fn mark(&self) -> nat {
        self@.offset
    }

    open spec fn wf(&self) -> bool {
        LengthPrefixedEncoder::wf(self)
    }

    /// The item begins with its reserved length field. This never fails.
    fn new(class_writer: ClassWriter) -> (r: Result<LengthPrefixedEncoder, EncodeError>)
        ensures
            r matches Ok(e) && e@ == (LengthPrefixed {
                writer: class_writer@.appended(be_bytes(0, 4)),
                offset: class_writer@.tail.len(),
                length: 0,
                errored: false,
            }),
    {
        let r = LengthPrefixedEncoder::new(class_writer);
        proof {
            let grown = class_writer@.appended(be_bytes(0, 4));
            assert(grown.tail.take(class_writer@.tail.len() as int) == class_writer@.tail);
            assert(class_writer@.tail.take(class_writer@.tail.len() as int) == class_writer@.tail);
        }
        r
    }

    /// The item is complete when its length field holds the number of bytes
    /// that were counted. An encoder on which a write has failed cannot be
    /// finished.
    fn finish(self) -> (r: Result<ClassWriter, EncodeError>)
        ensures
            match r {
                Ok(w) => !self@.errored && w@ == self@.writer.repaired(
                    self@.offset as int,
                    be_bytes(self@.length, 4),
                ),
                Err(e) => self@.errored && e == failure(EncodeErrorKind::ErroredBefore),
            },
    {
        proof {
            lemma_be_bytes_len(self@.length, 4);
        }
        let r = LengthPrefixedEncoder::finish(self);
        proof {
            if r is Ok {
                let field = be_bytes(self@.length, 4);
                let tail = self@.writer.tail;
                assert(patched(tail, self@.offset as int, field).take(self@.offset as int)
                    == tail.take(self@.offset as int));
            }
        }
        r
    }
}

/// A counter of the items of a sequence, as it is written in front of them.
pub trait Counter: Copy + Encode {
    /// The number of items counted.
    spec fn value(self) -> nat;

    /// The number of bytes that the counter takes up in the output.
    spec fn width() -> nat;

    /// The highest number that the counter can hold.
    spec fn limit() -> nat;

    /// A counter is written as a big-endian number of its width.
    proof fn lemma_encoding(self)
        ensures
            self.encoding() == be_bytes(self.value(), Self::width()),
    ;

    fn zero() -> (r: Self)
        ensures
            r.value() == 0,
    ;

    /// Whether one more item can be counted.
    fn check(self) -> (r: Result<(), EncodeError>)
        ensures
            match r {
                Ok(()) => self.value() < Self::limit(),
                Err(e) => self.value() >= Self::limit() && e == failure(
                    EncodeErrorKind::TooManyItems,
                ),
            },
    ;

    /// Counts one more item, if the counter can hold the new number.
    fn increment(&mut self) -> (r: Result<(), EncodeError>)
        ensures
            match r {
                Ok(()) => old(self).value() < Self::limit()
                    && final(self).value() == old(self).value() + 1,
                Err(e) => old(self).value() >= Self::limit() && e == failure(
                    EncodeErrorKind::TooManyItems,
                ) && *final(self) == *old(self),
            },
    ;
}

impl Counter for u8 {
    open spec fn value(self) -> nat {
        self as nat
    }

    open spec fn width() -> nat {
        1
    }

    open spec fn limit() -> nat {
        u8::MAX as nat
    }

    proof fn lemma_encoding(self) {
    }

    fn zero() -> (r: u8) {
        0
    }

    fn check(self) -> (r: Result<(), EncodeError>) {
        if self == u8::MAX {
            Err(EncodeError::with_context(EncodeErrorKind::TooManyItems, Context::Nowhere))
        } else {
            Ok(())
        }
    }

    fn increment(&mut self) -> (r: Result<(), EncodeError>) {
        match self.checked_add(1) {
            Some(i) => {
                *self = i;
                Ok(())
            },
            None => Err(
                EncodeError::with_context(EncodeErrorKind::TooManyItems, Context::Nowhere),
            ),
        }
    }
}

impl Counter for u16 {
    open spec fn value(self) -> nat {
        self as nat
    }

    open spec fn width() -> nat {
        2
    }

    open spec fn limit() -> nat {
        u16::MAX as nat
    }

    proof fn lemma_encoding(self) {
    }

    fn zero() -> (r: u16) {
        0
    }

    fn check(self) -> (r: Result<(), EncodeError>) {
        if self == u16::MAX {
            Err(EncodeError::with_context(EncodeErrorKind::TooManyItems, Context::Nowhere))
        } else {
            Ok(())
        }
    }

    fn increment(&mut self) -> (r: Result<(), EncodeError>) {
        match self.checked_add(1) {
            Some(i) => {
                *self = i;
                Ok(())
            },
            None => Err(
                EncodeError::with_context(EncodeErrorKind::TooManyItems, Context::Nowhere),
            ),
        }
    }
}

/// What a [`CountedWriter`] stands for.
pub struct Counting {
    /// The class that is being written, as long as the writer holds it. It is
    /// away while an item is being written, and gone if that item failed.
    pub writer: Option<Layout>,
    /// Where in the tail the count field stands.
    pub offset: nat,
    /// The number of items written so far.
    pub count: nat,
    /// Whether anything has failed. Nothing more can be written then.
    pub errored: bool,
}

/// A writer for a sequence of items behind a field that holds their number.
/// The field is reserved when the writer is made and brought up to date after
/// every item, so that it is right for the items written so far. A writer on
/// which anything has failed refuses every further use. If it was an item
/// that failed, the class writer is gone with the item. If the writer refused
/// to begin an item, it still holds the class writer, untouched, and hands it
/// out on request.
#[derive(Debug)]
pub struct CountedWriter<W, R = u16> {
    /// The offset of the counter starting at the pool end.
    count_offset: Offset,
    class_writer: Option<ClassWriter>,
    count: R,
    errored: bool,
    marker: PhantomData<W>,
}

impl<W, R: Counter> View for CountedWriter<W, R> {
    type V = Counting;

    closed spec fn view(&self) -> Counting {
        Counting {
            writer: match self.class_writer {
                Some(class_writer) => Some(class_writer@),
                None => None,
            },
            offset: self.count_offset.0 as nat,
            count: self.count.value(),
            errored: self.errored,
        }
    }
}

impl Counting {
    /// Whether a writer in this state refuses to go on because of what
    /// happened before: something has failed, or the class writer is away.
    pub open spec fn spent(self) -> bool {
        self.errored || self.writer is None
    }

    /// This state after a failure that left everything else as it was.
    pub open spec fn failed(self) -> Counting {
        Counting { errored: true, ..self }
    }
}

impl<W, R> CountedWriter<W, R> where R: Counter, W: WriteBuilder {
    /// The class writer, if the writer holds it, is well formed, and the
    /// count field lies inside its tail.
    pub open spec fn wf(&self) -> bool {
        self.writer_wf() && (self@.writer matches Some(layout) ==> self@.offset + R::width()
            <= layout.tail.len())
    }

    /// The class writer, if the writer holds it, is well formed.
    pub closed spec fn writer_wf(&self) -> bool {
        self.class_writer matches Some(class_writer) ==> class_writer.wf()
    }

    /// Reserves the count field at the end of the tail and sets it to zero.
    pub fn new(class_writer: ClassWriter) -> (r: Result<CountedWriter<W, R>, EncodeError>)
        requires
            class_writer.wf(),
        ensures
            r matches Ok(w) && w.wf() && w@ == (Counting {
                writer: Some(class_writer@.appended(be_bytes(0, R::width()))),
                offset: class_writer@.tail.len(),
                count: 0,
                errored: false,
            }),
    {
        let mut class_writer = class_writer;
        let count_offset = class_writer.position();
        let count = R::zero();
        proof {
            count.lemma_encoding();
            lemma_be_bytes_len(0, R::width());
        }
        let _ = class_writer.write(&count);
        Ok(
            CountedWriter {
                class_writer: Some(class_writer),
                count_offset,
                count,
                errored: false,
                marker: PhantomData,
            },
        )
    }

    /// Takes the class writer out for the next item. A writer that is spent
    /// refuses with `ErroredBefore`, and one whose counter is full with
    /// `TooManyItems`. A refusal changes nothing but that the writer has now
    /// failed: the class writer, if the writer holds it, stays where it is
    /// and as it is.
    pub fn begin(&mut self) -> (r: Result<ClassWriter, EncodeError>)
        requires
            old(self).wf(),
        ensures
            final(self).wf(),
            match r {
                Ok(class_writer) => ({
                    &&& !old(self)@.spent()
                    &&& old(self)@.count < R::limit()
                    &&& old(self)@.writer == Some(class_writer@)
                    &&& class_writer.wf()
                    &&& old(self)@.offset + R::width() <= class_writer@.tail.len()
                    &&& final(self)@ == (Counting { writer: None, ..old(self)@ })
                }),
                Err(e) => ({
                    &&& final(self)@ == old(self)@.failed()
                    &&& if old(self)@.spent() {
                        e == failure(EncodeErrorKind::ErroredBefore)
                    } else {
                        old(self)@.count >= R::limit() && e == failure(
                            EncodeErrorKind::TooManyItems,
                        )
                    }
                }),
            },
    {
        if self.errored || self.class_writer.is_none() {
            self.errored = true;
            return Err(EncodeError::with_context(EncodeErrorKind::ErroredBefore, Context::Nowhere));
        }
        match self.count.check() {
            Ok(()) => {},
            Err(e) => {
                self.errored = true;
                return Err(e);
            },
        }
        match self.class_writer.take() {
            Some(class_writer) => Ok(class_writer),
            None => vstd::pervasive::unreached(),
        }
    }

    /// Whether taking in the class writer `class_writer` of a complete item
    /// may turn the writer `before` into `after` and return `r`. The item is
    /// counted, the new count is written into the count field, and the class
    /// writer is kept. A writer that has failed refuses with `ErroredBefore`
    /// and stays as it is. A writer whose counter is full refuses with
    /// `TooManyItems` and keeps the class writer as it was handed in.
    pub open spec fn ended(
        before: Counting,
        class_writer: Layout,
        after: Counting,
        r: Result<(), EncodeError>,
    ) -> bool {
        if before.errored {
            r == Err::<(), EncodeError>(failure(EncodeErrorKind::ErroredBefore)) && after == before
        } else if before.count >= R::limit() {
            r == Err::<(), EncodeError>(failure(EncodeErrorKind::TooManyItems)) && after == (
            Counting { writer: Some(class_writer), errored: true, ..before })
        } else {
            r is Ok && after == (Counting {
                writer: Some(
                    class_writer.repaired(
                        before.offset as int,
                        be_bytes(before.count + 1, R::width()),
                    ),
                ),
                count: before.count + 1,
                ..before
            })
        }
    }

    /// Counts the item that `class_writer` was handed out for, writes the new
    /// count into the count field, and keeps the class writer for the next
    /// item, unless the writer has failed or its counter is full.
    pub fn end(&mut self, class_writer: ClassWriter) -> (r: Result<(), EncodeError>)
        requires
            old(self).wf(),
            class_writer.wf(),
            old(self)@.offset + R::width() <= class_writer@.tail.len(),
        ensures
            final(self).wf(),
            Self::ended(old(self)@, class_writer@, final(self)@, r),
    {
        if self.errored {
            return Err(EncodeError::with_context(EncodeErrorKind::ErroredBefore, Context::Nowhere));
        }
        let mut class_writer = class_writer;
        match self.count.increment() {
            Ok(()) => {},
            Err(e) => {
                self.class_writer = Some(class_writer);
                self.errored = true;
                return Err(e);
            },
        }
        let field = encoding_of(&self.count);
        proof {
            self.count.lemma_encoding();
            lemma_be_bytes_len(self.count.value(), R::width());
        }
        class_writer.patch(self.count_offset, field.as_slice());
        self.class_writer = Some(class_writer);
        Ok(())
    }

    /// Takes in what became of the item that the class writer was handed out
    /// for. If the item is complete it is counted, as `end` does. If it
    /// failed, the writer has failed and the item's error is handed on as it
    /// is.
    pub fn settle(&mut self, item: Result<ClassWriter, EncodeError>) -> (r: Result<
        (),
        EncodeError,
    >)
        requires
            old(self).wf(),
            item matches Ok(class_writer) ==> class_writer.wf() && old(self)@.offset + R::width()
                <= class_writer@.tail.len(),
        ensures
            final(self).wf(),
            match item {
                Ok(class_writer) => Self::ended(old(self)@, class_writer@, final(self)@, r),
                Err(e) => r == Err::<(), EncodeError>(e) && final(self)@ == old(self)@.failed(),
            },
    {
        match item {
            Ok(class_writer) => self.end(class_writer),
            Err(e) => {
                self.errored = true;
                Err(e)
            },
        }
    }

    /// Writes one item: a builder is made for it from the class writer, `f`
    /// fills it in, the builder is finished, and the class writer that it
    /// hands back is kept with the item counted. What the tail held before
    /// is kept, but for the count field, and the item stands behind it.
    ///
    /// A writer that is spent or whose counter is full refuses as `begin`
    /// does, and `f` is not called. If making the builder, `f` or finishing
    /// the builder fails, that error is handed on as it is; the class writer
    /// is then gone with the item.
    pub fn write<F>(&mut self, f: F) -> (r: Result<&mut Self, EncodeError>) where
        F: FnOnce(&mut W) -> Result<(), EncodeError>,

        requires
            old(self).wf(),
            forall|builder: &mut W| builder.wf() ==> call_requires(f, (builder,)),
            forall|builder: &mut W, done: Result<(), EncodeError>|
                builder.wf() && call_ensures(f, (builder,), done) && done is Ok ==> ({
                    &&& final(builder).wf()
                    &&& final(builder).mark() == builder.mark()
                    &&& final(builder).layout().keeps(builder.layout(), builder.mark())
                }),
        ensures
            match r {
                Ok(w) => ({
                    &&& !old(self)@.spent()
                    &&& old(self)@.count < R::limit()
                    &&& old(self)@.writer matches Some(before)
                    &&& w@.writer matches Some(after)
                    &&& w.wf()
                    &&& !w@.errored
                    &&& w@.offset == old(self)@.offset
                    &&& w@.count == old(self)@.count + 1
                    &&& after.tail.len() >= before.tail.len()
                    &&& after.tail.take(before.tail.len() as int) == patched(
                        before.tail,
                        w@.offset as int,
                        be_bytes(w@.count, R::width()),
                    )
                    &&& exists|
                        class_writer: ClassWriter,
                        builder: &mut W,
                        back: ClassWriter,
                        done: Result<(), EncodeError>,
                    |
                        #![trigger call_ensures(f, (builder,), done), class_writer@, back@]
                        class_writer@ == before && class_writer.wf() && call_ensures(
                            W::new,
                            (class_writer,),
                            Ok::<W, EncodeError>(*builder),
                        ) && done is Ok && call_ensures(f, (builder,), done) && call_ensures(
                            W::finish,
                            (*final(builder),),
                            Ok::<ClassWriter, EncodeError>(back),
                        ) && after == back@.repaired(
                            w@.offset as int,
                            be_bytes(w@.count, R::width()),
                        )
                    &&& *final(w) == *final(self)
                }),
                Err(e) => ({
                    &&& final(self).wf()
                    &&& if old(self)@.spent() {
                        e == failure(EncodeErrorKind::ErroredBefore)
                            && final(self)@ == old(self)@.failed()
                    } else if old(self)@.count >= R::limit() {
                        e == failure(EncodeErrorKind::TooManyItems)
                            && final(self)@ == old(self)@.failed()
                    } else {
                        &&& final(self)@ == (Counting {
                            writer: None,
                            errored: true,
                            ..old(self)@
                        })
                        &&& old(self)@.writer matches Some(before)
                        &&& exists|class_writer: ClassWriter|
                            #![trigger class_writer@]
                            class_writer@ == before && class_writer.wf() && ({
                                ||| call_ensures(
                                    W::new,
                                    (class_writer,),
                                    Err::<W, EncodeError>(e),
                                )
                                ||| exists|builder: &mut W|
                                    #![trigger call_ensures(
                                        f,
                                        (builder,),
                                        Err::<(), EncodeError>(e),
                                    )]
                                    call_ensures(
                                        W::new,
                                        (class_writer,),
                                        Ok::<W, EncodeError>(*builder),
                                    ) && call_ensures(f, (builder,), Err::<(), EncodeError>(e))
                                ||| exists|builder: &mut W, done: Result<(), EncodeError>|
                                    #![trigger call_ensures(f, (builder,), done)]
                                    call_ensures(
                                        W::new,
                                        (class_writer,),
                                        Ok::<W, EncodeError>(*builder),
                                    ) && done is Ok && call_ensures(f, (builder,), done)
                                        && call_ensures(
                                        W::finish,
                                        (*final(builder),),
                                        Err::<ClassWriter, EncodeError>(e),
                                    )
                            })
                    }
                }),
            },
    {
        let class_writer = match self.begin() {
            Ok(class_writer) => class_writer,
            Err(e) => {
                return Err(e);
            },
        };
        let ghost before = class_writer@;
        let ghost handed = class_writer;
        let made = W::new(class_writer);
        let mut builder = match made {
            Ok(builder) => builder,
            Err(e) => {
                let _ = self.settle(Err(e.clone()));
                return Err(e);
            },
        };
        let ghost begun = builder;
        let done = f(&mut builder);
        let ghost held = choose|held: &mut W|
            #![trigger call_ensures(f, (held,), done)]
            *held == begun && call_ensures(f, (held,), done) && *final(held) == builder;
        match done {
            Ok(()) => {},
            Err(e) => {
                assert(call_ensures(f, (held,), Err::<(), EncodeError>(e)));
                let _ = self.settle(Err(e.clone()));
                return Err(e);
            },
        }
        let ghost filled = builder;
        let finished = builder.finish();
        let class_writer = match finished {
            Ok(class_writer) => class_writer,
            Err(e) => {
                assert(call_ensures(
                    W::finish,
                    (*final(held),),
                    Err::<ClassWriter, EncodeError>(e),
                ));
                let _ = self.settle(Err(e.clone()));
                return Err(e);
            },
        };
        proof {
            let mark = before.tail.len();
            lemma_keeps_transitive(before, begun.layout(), filled.layout(), mark, mark);
            lemma_keeps_transitive(before, filled.layout(), class_writer@, mark, mark);
        }
        let ghost finished = class_writer@;
        let ghost back = class_writer;
        proof {
            assert(call_ensures(W::new, (handed,), Ok::<W, EncodeError>(*held)));
            assert(call_ensures(f, (held,), done));
            assert(call_ensures(
                W::finish,
                (*final(held),),
                Ok::<ClassWriter, EncodeError>(back),
            ));
        }
        match self.settle(Ok(class_writer)) {
            Ok(()) => {},
            Err(e) => {
                return Err(e);
            },
        }
        proof {
            let offset = self@.offset as int;
            let field = be_bytes(self@.count, R::width());
            lemma_be_bytes_len(self@.count, R::width());
            let after = self@.writer->0;
            let length = before.tail.len() as int;
            assert(after.tail == patched(finished.tail, offset, field));
            assert(finished.tail.take(length) == before.tail.take(length));
            assert(before.tail.take(length) == before.tail);
            assert(after.tail.take(length) == patched(before.tail, offset, field));
        }
        Ok(self)
    }

    /// Hands the class writer back, with the count field holding the number
    /// of items written. A writer that is spent refuses with `ErroredBefore`.
    pub fn finish(self) -> (r: Result<ClassWriter, EncodeError>)
        requires
            self.wf(),
        ensures
            match r {
                Ok(class_writer) => !self@.spent() && class_writer.wf() && self@.writer == Some(
                    class_writer@,
                ),
                Err(e) => self@.spent() && e == failure(EncodeErrorKind::ErroredBefore),
            },
    {
        if self.errored {
            return Err(EncodeError::with_context(EncodeErrorKind::ErroredBefore, Context::Nowhere));
        }
        match self.class_writer {
            Some(class_writer) => Ok(class_writer),
            None => Err(
                EncodeError::with_context(EncodeErrorKind::ErroredBefore, Context::Nowhere),
            ),
        }
    }

    /// Hands the class writer out, whether the writer has failed or not, if
    /// the writer holds it. After a refusal this is the class writer with
    /// the items that were written and their count, as if the refused item
    /// had never been asked for.
    pub fn into_class_writer(self) -> (r: Option<ClassWriter>)
        requires
            self.wf(),
        ensures
            match r {
                Some(class_writer) => class_writer.wf() && self@.writer == Some(class_writer@),
                None => self@.writer is None,
            },
    {
        self.class_writer
    }
}

} // verus!

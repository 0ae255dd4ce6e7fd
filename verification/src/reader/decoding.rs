//! The cursor that every decode operation reads through, and the values that
//! can be read from it.

use crate::bigendian::{be_value, read_signed, read_unsigned, signed};
use crate::bigendian::lemma_span_values;
use crate::error::{Context, DecodeError, DecodeErrorKind};
use std::marker::PhantomData;
use vstd::prelude::*;

verus! {

/// What a [`Decoder`] stands for: the bytes it has not handed out yet, the
/// absolute position of the first of them in the file, and the context that
/// its failures are tagged with.
pub struct Cursor {
    pub remaining: Seq<u8>,
    pub position: usize,
    pub context: Context,
}

impl Cursor {
    /// The failure of a read that asks for more bytes than are left.
    pub open spec fn eoi(self) -> DecodeError {
        DecodeError {
            kind: DecodeErrorKind::UnexpectedEoi,
            position: Some(self.position),
            context: self.context,
        }
    }

    /// The cursor after `count` bytes have been consumed from the front.
    pub open spec fn skip(self, count: int) -> Cursor {
        Cursor {
            remaining: self.remaining.skip(count),
            position: (self.position + count) as usize,
            context: self.context,
        }
    }

    /// The cursor over the first `count` bytes only, tagged with `context`.
    pub open spec fn prefix(self, count: int, context: Context) -> Cursor {
        Cursor { remaining: self.remaining.take(count), position: self.position, context }
    }

    /// The same cursor tagged with `context`.
    pub open spec fn tagged(self, context: Context) -> Cursor {
        Cursor { remaining: self.remaining, position: self.position, context }
    }

    /// The position just behind the last remaining byte.
    pub open spec fn end(self) -> int {
        self.position + self.remaining.len()
    }

    /// A read of `width` bytes that started here succeeded and left `after`.
    pub open spec fn took(self, after: Cursor, width: nat) -> bool {
        self.remaining.len() >= width && after == self.skip(width as int)
    }

    /// A read of `width` bytes that started here found too few of them, left
    /// `after` and reported `e`.
    pub open spec fn ran_out(self, after: Cursor, width: nat, e: DecodeError) -> bool {
        self.remaining.len() < width && after == self && e == self.eoi()
    }

    /// The first `width` remaining bytes.
    pub open spec fn front(self, width: nat) -> Seq<u8> {
        self.remaining.take(width as int)
    }
}

/// A read-only cursor over borrowed input bytes. It never copies the input and
/// keeps track of how far into the file it has advanced.
#[derive(Debug)]
pub struct Decoder<'a> {
    buf: &'a [u8],
    file_position: usize,
    ctx: Context,
}

impl<'a> View for Decoder<'a> {
    type V = Cursor;

    closed spec fn view(&self) -> Cursor {
        Cursor { remaining: self.buf@, position: self.file_position, context: self.ctx }
    }
}

impl<'a> Clone for Decoder<'a> {
    /// An independent cursor over the same bytes, in the same state.
    fn clone(&self) -> (r: Decoder<'a>)
        ensures
            r@ == self@,
    {
        proof {
            use_type_invariant(self);
        }
        Decoder { buf: self.buf, file_position: self.file_position, ctx: self.ctx }
    }
}

impl<'a> Decoder<'a> {
    /// The end of the remaining bytes is a position that `usize` can express.
    #[verifier::type_invariant]
    spec fn in_bounds(self) -> bool {
        self.file_position + self.buf@.len() <= usize::MAX
    }

    /// A cursor at the start of `buf`.
    pub fn new(buf: &'a [u8], ctx: Context) -> (r: Decoder<'a>)
        ensures
            r@ == (Cursor { remaining: buf@, position: 0, context: ctx }),
    {
        let _ = buf.len();
        Decoder { buf, file_position: 0, ctx }
    }

    /// The position inside the file, *not* inside this decoder.
    pub fn file_position(&self) -> (r: usize)
        ensures
            r == self@.position,
            self@.end() <= usize::MAX,
    {
        proof {
            use_type_invariant(self);
        }
        self.file_position
    }

    pub fn bytes_remaining(&self) -> (r: usize)
        ensures
            r == self@.remaining.len(),
            self@.end() <= usize::MAX,
    {
        proof {
            use_type_invariant(self);
        }
        self.buf.len()
    }

    /// The bytes that have not been consumed yet.
    pub fn buf(&self) -> (r: &'a [u8])
        ensures
            r@ == self@.remaining,
    {
        self.buf
    }

    pub fn context(&self) -> (r: Context)
        ensures
            r == self@.context,
    {
        self.ctx
    }

    pub fn set_context(&mut self, ctx: Context)
        ensures
            final(self)@ == old(self)@.tagged(ctx),
    {
        proof {
            use_type_invariant(&*self);
        }
        self.ctx = ctx;
    }

    /// Creates a new decoder which is limited to the current location and has the length of `count`.
    /// It will have its own context.
    pub fn limit(&self, count: usize, ctx: Context) -> (r: Result<Decoder<'a>, DecodeError>)
        ensures
            match r {
                Ok(d) => count <= self@.remaining.len() && d@ == self@.prefix(count as int, ctx),
                Err(e) => count > self@.remaining.len() && e == self@.eoi(),
            },
    {
        proof {
            use_type_invariant(self);
        }
        if count > self.buf.len() {
            Err(DecodeError::with_info(DecodeErrorKind::UnexpectedEoi, self.file_position, self.ctx))
        } else {
            Ok(
                Decoder {
                    buf: vstd::slice::slice_subrange(self.buf, 0, count),
                    file_position: self.file_position,
                    ctx,
                },
            )
        }
    }

    /// Creates a new decoder with its own context.
    pub fn with_context(&self, ctx: Context) -> (r: Decoder<'a>)
        ensures
            r@ == self@.tagged(ctx),
    {
        proof {
            use_type_invariant(self);
        }
        Decoder { buf: self.buf, file_position: self.file_position, ctx }
    }

    /// Advances by a specific number of bytes.
    pub fn advance(&mut self, count: usize) -> (r: Result<(), DecodeError>)
        ensures
            match r {
                Ok(()) => count <= old(self)@.remaining.len() && final(self)@ == old(self)@.skip(
                    count as int,
                ),
                Err(e) => count > old(self)@.remaining.len() && e == old(self)@.eoi()
                    && final(self)@ == old(self)@,
            },
    {
        proof {
            use_type_invariant(&*self);
        }
        if count > self.buf.len() {
            Err(DecodeError::with_info(DecodeErrorKind::UnexpectedEoi, self.file_position, self.ctx))
        } else {
            self.buf = vstd::slice::slice_subrange(self.buf, count, self.buf.len());
            self.file_position += count;
            Ok(())
        }
    }

    /// Reads bytes into the buffer supplied and advances.
    pub fn read_bytes(&mut self, buf: &mut [u8]) -> (r: Result<(), DecodeError>)
        ensures
            final(buf)@.len() == old(buf)@.len(),
            match r {
                Ok(()) => old(buf)@.len() <= old(self)@.remaining.len()
                    && final(buf)@ == old(self)@.remaining.take(old(buf)@.len() as int)
                    && final(self)@ == old(self)@.skip(
                    old(buf)@.len() as int,
                ),
                Err(e) => old(buf)@.len() > old(self)@.remaining.len() && e == old(self)@.eoi()
                    && final(self)@ == old(self)@ && final(buf)@ == old(buf)@,
            },
    {
        proof {
            use_type_invariant(&*self);
        }
        let count = buf.len();
        if count > self.buf.len() {
            Err(DecodeError::with_info(DecodeErrorKind::UnexpectedEoi, self.file_position, self.ctx))
        } else {
            let mut i: usize = 0;
            while i < count
                invariant
                    i <= count,
                    count == buf@.len(),
                    count <= self.buf@.len(),
                    forall|j: int| 0 <= j < i ==> buf@[j] == self.buf@[j],
                decreases count - i,
            {
                buf[i] = self.buf[i];
                i += 1;
            }
            assert(buf@ == self.buf@.take(count as int));
            self.buf = vstd::slice::slice_subrange(self.buf, count, self.buf.len());
            self.file_position += count;
            Ok(())
        }
    }

    /// Advances by `count` and returns `count` bytes.
    pub fn split_bytes_off(&mut self, count: usize) -> (r: Result<&'a [u8], DecodeError>)
        ensures
            match r {
                Ok(bytes) => count <= old(self)@.remaining.len()
                    && bytes@ == old(self)@.remaining.take(count as int)
                    && final(self)@ == old(self)@.skip(count as int),
                Err(e) => count > old(self)@.remaining.len() && e == old(self)@.eoi()
                    && final(self)@ == old(self)@,
            },
    {
        proof {
            use_type_invariant(&*self);
        }
        if count > self.buf.len() {
            Err(DecodeError::with_info(DecodeErrorKind::UnexpectedEoi, self.file_position, self.ctx))
        } else {
            let v = vstd::slice::slice_subrange(self.buf, 0, count);
            self.buf = vstd::slice::slice_subrange(self.buf, count, self.buf.len());
            self.file_position += count;
            Ok(v)
        }
    }

    /// Decodes one `T` at the current position. If this fails the decoder
    /// stays where it is.
    pub fn read<T: Decode<'a>>(&mut self) -> (r: Result<T, DecodeError>)
        ensures
            T::decodes(old(self)@, final(self)@, r),
            r is Err ==> final(self)@ == old(self)@,
    {
        T::decode(self)
    }

    /// Decodes a `T` that takes over the whole decoder.
    pub fn read_into<T: DecodeInto<'a>>(self) -> (r: Result<T, DecodeError>)
        ensures
            T::decodes_into(self@, r),
    {
        T::decode_into(self)
    }
}

/// A value that can be decoded from the front of a [`Decoder`].
pub trait Decode<'a>: Sized + 'a {
    /// Whether a `decode` that finds the cursor at `before` may leave it at
    /// `after` and return `r`.
    spec fn decodes(before: Cursor, after: Cursor, r: Result<Self, DecodeError>) -> bool;

    /// Decodes one value from the front of `decoder`. A value is read
    /// wholly or not at all: if this fails, the decoder stays where it is.
    fn decode(decoder: &mut Decoder<'a>) -> (r: Result<Self, DecodeError>)
        ensures
            Self::decodes(old(decoder)@, final(decoder)@, r),
            r is Err ==> final(decoder)@ == old(decoder)@,
    ;
}

/// A value that is decoded from a [`Decoder`] and keeps it.
pub trait DecodeInto<'a>: Sized + 'a {
    /// Whether a `decode_into` that is handed the cursor `from` may return `r`.
    spec fn decodes_into(from: Cursor, r: Result<Self, DecodeError>) -> bool;

    fn decode_into(decoder: Decoder<'a>) -> (r: Result<Self, DecodeError>)
        ensures
            Self::decodes_into(decoder@, r),
    ;
}

impl<'a> Decode<'a> for u8 {
    open spec fn decodes(before: Cursor, after: Cursor, r: Result<u8, DecodeError>) -> bool {
        match r {
            Ok(v) => before.took(after, 1) && v == be_value(before.front(1)),
            Err(e) => before.ran_out(after, 1, e),
        }
    }

    fn decode(decoder: &mut Decoder<'a>) -> (r: Result<u8, DecodeError>) {
        let bytes = decoder.split_bytes_off(1)?;
        proof {
            lemma_span_values();
        }
        Ok(read_unsigned(bytes) as u8)
    }
}

impl<'a> Decode<'a> for i8 {
    open spec fn decodes(before: Cursor, after: Cursor, r: Result<i8, DecodeError>) -> bool {
        match r {
            Ok(v) => before.took(after, 1) && v == signed(be_value(before.front(1)), 1),
            Err(e) => before.ran_out(after, 1, e),
        }
    }

    fn decode(decoder: &mut Decoder<'a>) -> (r: Result<i8, DecodeError>) {
        let bytes = decoder.split_bytes_off(1)?;
        proof {
            lemma_span_values();
            crate::bigendian::lemma_be_value_bound(bytes@);
        }
        Ok(read_signed(bytes) as i8)
    }
}

impl<'a> Decode<'a> for u16 {
    open spec fn decodes(before: Cursor, after: Cursor, r: Result<u16, DecodeError>) -> bool {
        match r {
            Ok(v) => before.took(after, 2) && v == be_value(before.front(2)),
            Err(e) => before.ran_out(after, 2, e),
        }
    }

    fn decode(decoder: &mut Decoder<'a>) -> (r: Result<u16, DecodeError>) {
        let bytes = decoder.split_bytes_off(2)?;
        proof {
            lemma_span_values();
        }
        Ok(read_unsigned(bytes) as u16)
    }
}

impl<'a> Decode<'a> for i16 {
    open spec fn decodes(before: Cursor, after: Cursor, r: Result<i16, DecodeError>) -> bool {
        match r {
            Ok(v) => before.took(after, 2) && v == signed(be_value(before.front(2)), 2),
            Err(e) => before.ran_out(after, 2, e),
        }
    }

    fn decode(decoder: &mut Decoder<'a>) -> (r: Result<i16, DecodeError>) {
        let bytes = decoder.split_bytes_off(2)?;
        proof {
            lemma_span_values();
            crate::bigendian::lemma_be_value_bound(bytes@);
        }
        Ok(read_signed(bytes) as i16)
    }
}

impl<'a> Decode<'a> for u32 {
    open spec fn decodes(before: Cursor, after: Cursor, r: Result<u32, DecodeError>) -> bool {
        match r {
            Ok(v) => before.took(after, 4) && v == be_value(before.front(4)),
            Err(e) => before.ran_out(after, 4, e),
        }
    }

    fn decode(decoder: &mut Decoder<'a>) -> (r: Result<u32, DecodeError>) {
        let bytes = decoder.split_bytes_off(4)?;
        proof {
            lemma_span_values();
        }
        Ok(read_unsigned(bytes) as u32)
    }
}

impl<'a> Decode<'a> for i32 {
    open spec fn decodes(before: Cursor, after: Cursor, r: Result<i32, DecodeError>) -> bool {
        match r {
            Ok(v) => before.took(after, 4) && v == signed(be_value(before.front(4)), 4),
            Err(e) => before.ran_out(after, 4, e),
        }
    }

    fn decode(decoder: &mut Decoder<'a>) -> (r: Result<i32, DecodeError>) {
        let bytes = decoder.split_bytes_off(4)?;
        proof {
            lemma_span_values();
            crate::bigendian::lemma_be_value_bound(bytes@);
        }
        Ok(read_signed(bytes) as i32)
    }
}

impl<'a> Decode<'a> for u64 {
    open spec fn decodes(before: Cursor, after: Cursor, r: Result<u64, DecodeError>) -> bool {
        match r {
            Ok(v) => before.took(after, 8) && v == be_value(before.front(8)),
            Err(e) => before.ran_out(after, 8, e),
        }
    }

    fn decode(decoder: &mut Decoder<'a>) -> (r: Result<u64, DecodeError>) {
        let bytes = decoder.split_bytes_off(8)?;
        proof {
            lemma_span_values();
        }
        Ok(read_unsigned(bytes) as u64)
    }
}

impl<'a> Decode<'a> for i64 {
    open spec fn decodes(before: Cursor, after: Cursor, r: Result<i64, DecodeError>) -> bool {
        match r {
            Ok(v) => before.took(after, 8) && v == signed(be_value(before.front(8)), 8),
            Err(e) => before.ran_out(after, 8, e),
        }
    }

    fn decode(decoder: &mut Decoder<'a>) -> (r: Result<i64, DecodeError>) {
        let bytes = decoder.split_bytes_off(8)?;
        proof {
            lemma_span_values();
            crate::bigendian::lemma_be_value_bound(bytes@);
        }
        Ok(read_signed(bytes) as i64)
    }
}

impl<'a> Decode<'a> for u128 {
    open spec fn decodes(before: Cursor, after: Cursor, r: Result<u128, DecodeError>) -> bool {
        match r {
            Ok(v) => before.took(after, 16) && v == be_value(before.front(16)),
            Err(e) => before.ran_out(after, 16, e),
        }
    }

    fn decode(decoder: &mut Decoder<'a>) -> (r: Result<u128, DecodeError>) {
        let bytes = decoder.split_bytes_off(16)?;
        proof {
            lemma_span_values();
        }
        Ok(read_unsigned(bytes))
    }
}

impl<'a> Decode<'a> for i128 {
    open spec fn decodes(before: Cursor, after: Cursor, r: Result<i128, DecodeError>) -> bool {
        match r {
            Ok(v) => before.took(after, 16) && v == signed(be_value(before.front(16)), 16),
            Err(e) => before.ran_out(after, 16, e),
        }
    }

    fn decode(decoder: &mut Decoder<'a>) -> (r: Result<i128, DecodeError>) {
        let bytes = decoder.split_bytes_off(16)?;
        proof {
            lemma_span_values();
            crate::bigendian::lemma_be_value_bound(bytes@);
        }
        Ok(read_signed(bytes))
    }
}

/// A value that is decoded at most once: the first `get` decodes it and keeps
/// the outcome, success or failure, and every later `get` replays what was kept.
#[derive(Debug)]
pub enum LazyDecodeRef<R> {
    NotRead,
    Read(R),
    Error(DecodeError),
}

impl<R: Clone> Clone for LazyDecodeRef<R> {
    /// A cell in the same state: empty, or with a clone of what is kept.
    fn clone(&self) -> (r: LazyDecodeRef<R>)
        ensures
            match *self {
                LazyDecodeRef::NotRead => r is NotRead,
                LazyDecodeRef::Read(v) => r matches LazyDecodeRef::Read(w) && cloned(v, w),
                LazyDecodeRef::Error(e) => r == LazyDecodeRef::<R>::Error(e),
            },
    {
        match self {
            LazyDecodeRef::NotRead => LazyDecodeRef::NotRead,
            LazyDecodeRef::Read(v) => LazyDecodeRef::Read(v.clone()),
            LazyDecodeRef::Error(e) => LazyDecodeRef::Error(e.clone()),
        }
    }
}

impl<'a, R: Decode<'a>> LazyDecodeRef<R> {
    /// The value, decoded from `decoder` if this is the first call. Once an
    /// outcome is kept the decoder is not touched again.
    pub fn get(&mut self, decoder: &mut Decoder<'a>) -> (r: Result<&R, DecodeError>)
        ensures
            match *old(self) {
                LazyDecodeRef::NotRead => match r {
                    Ok(v) => R::decodes(old(decoder)@, final(decoder)@, Ok(*v)) && *final(self)
                        == LazyDecodeRef::Read(*v),
                    Err(e) => R::decodes(old(decoder)@, final(decoder)@, Err(e)) && final(decoder)@
                        == old(decoder)@ && *final(self) == LazyDecodeRef::<R>::Error(e),
                },
                LazyDecodeRef::Read(v) => r == Ok::<&R, DecodeError>(&v)
                    && *final(self) == *old(self) && final(decoder)@ == old(decoder)@,
                LazyDecodeRef::Error(e) => r == Err::<&R, DecodeError>(e)
                    && *final(self) == *old(self) && final(decoder)@ == old(decoder)@,
            },
    {
        if let LazyDecodeRef::NotRead = self {
            match decoder.read::<R>() {
                Ok(v) => {
                    *self = LazyDecodeRef::Read(v);
                },
                Err(err) => {
                    *self = LazyDecodeRef::Error(err);
                },
            }
        }
        match self {
            LazyDecodeRef::Read(v) => Ok(v),
            LazyDecodeRef::Error(err) => Err(err.clone()),
            LazyDecodeRef::NotRead => vstd::pervasive::unreached(),
        }
    }
}

/// Whether a countdown has items left.
#[derive(Debug, Copy, Clone, Eq, PartialEq, Structural)]
pub enum CountState {
    Continue,
    Break,
}

/// A counter of the items that are still to come.
pub trait Countdown: Copy {
    /// How many items are still to come.
    spec fn left(self) -> nat;

    /// Decrements the counter and returns whether it can continue. A counter
    /// that has reached zero stays there.
    fn decrement(&mut self) -> (r: CountState)
        ensures
            match r {
                CountState::Continue => old(self).left() > 0
                    && final(self).left() == old(self).left() - 1,
                CountState::Break => old(self).left() == 0 && *final(self) == *old(self),
            },
    ;
}

impl Countdown for u8 {
    open spec fn left(self) -> nat {
        self as nat
    }

    fn decrement(&mut self) -> (r: CountState) {
        match self.checked_sub(1) {
            Some(i) => {
                *self = i;
                CountState::Continue
            },
            None => CountState::Break,
        }
    }
}

impl Countdown for u16 {
    open spec fn left(self) -> nat {
        self as nat
    }

    fn decrement(&mut self) -> (r: CountState) {
        match self.checked_sub(1) {
            Some(i) => {
                *self = i;
                CountState::Continue
            },
            None => CountState::Break,
        }
    }
}

/// What a [`DecodeCounted`] stands for: where its next item starts and how
/// many items it will still try to decode. A sequence that has met a failure
/// has no items left.
pub struct Counted {
    pub cursor: Cursor,
    pub left: nat,
}

/// Whether decoding `n` items of type `T` one after the other, starting at
/// `start`, may leave the cursor at `end` with outcome `r`: success if all `n`
/// decode, else the failure of the first item that does not.
pub open spec fn repeats<'a, T: Decode<'a>>(
    start: Cursor,
    n: nat,
    end: Cursor,
    r: Result<(), DecodeError>,
) -> bool
    decreases n,
{
    if n == 0 {
        end == start && r is Ok
    } else {
        exists|mid: Cursor, item: Result<T, DecodeError>| #[trigger]
            T::decodes(start, mid, item) && match item {
                Ok(_) => repeats::<T>(mid, (n - 1) as nat, end, r),
                Err(e) => end == mid && r == Err::<(), DecodeError>(e),
            }
    }
}

/// A sequence of `T` that sits behind a count of type `Count` in the input.
/// Items are decoded one by one on demand. The sequence ends when the count is
/// used up or when an item fails to decode, and once ended it stays ended.
#[derive(Debug)]
pub struct DecodeCounted<'a, T, Count> {
    decoder: Decoder<'a>,
    remaining: Count,
    failed: bool,
    marker: PhantomData<T>,
}

impl<'a, T, Count: Countdown> View for DecodeCounted<'a, T, Count> {
    type V = Counted;

    closed spec fn view(&self) -> Counted {
        Counted {
            cursor: self.decoder@,
            left: if self.failed {
                0
            } else {
                self.remaining.left()
            },
        }
    }
}

impl<'a, T, Count: Countdown + 'a> DecodeCounted<'a, T, Count> {
    /// The sequence of `count` items that starts where `decoder` stands.
    pub fn new(decoder: Decoder<'a>, count: Count) -> (r: DecodeCounted<'a, T, Count>)
        ensures
            r@ == (Counted { cursor: decoder@, left: count.left() }),
    {
        DecodeCounted { decoder, remaining: count, failed: false, marker: PhantomData }
    }
}

impl<'a, T: Decode<'a>, Count: Countdown + 'a> DecodeCounted<'a, T, Count> {
    /// The next item, or `None` once the sequence has ended. A failure is
    /// handed out once, as the last item.
    pub fn next(&mut self) -> (r: Option<Result<T, DecodeError>>)
        ensures
            match r {
                None => old(self)@.left == 0 && final(self)@ == old(self)@,
                Some(item) => old(self)@.left > 0 && T::decodes(
                    old(self)@.cursor,
                    final(self)@.cursor,
                    item,
                ) && (item is Err ==> final(self)@.cursor == old(self)@.cursor)
                    && final(self)@.left == (if item is Ok {
                    old(self)@.left - 1
                } else {
                    0
                }),
            },
    {
        if self.failed {
            return None;
        }
        match self.remaining.decrement() {
            CountState::Continue => {
                let item = self.decoder.read::<T>();
                if item.is_err() {
                    self.failed = true;
                }
                Some(item)
            },
            CountState::Break => None,
        }
    }
}

impl<'a, T, Count: Countdown> Clone for DecodeCounted<'a, T, Count> {
    /// An independent sequence in the same state.
    fn clone(&self) -> (r: DecodeCounted<'a, T, Count>)
        ensures
            r@ == self@,
    {
        DecodeCounted {
            decoder: self.decoder.clone(),
            remaining: self.remaining,
            failed: self.failed,
            marker: PhantomData,
        }
    }
}

impl<'a, T, Count> Decode<'a> for DecodeCounted<'a, T, Count> where
    T: Decode<'a>,
    Count: Decode<'a> + Countdown,
 {
    /// The count is read, then every item is decoded once to find the end of
    /// the sequence. The result starts over at the first item. If the count
    /// or one of the items does not decode, nothing is consumed.
    open spec fn decodes(
        before: Cursor,
        after: Cursor,
        r: Result<DecodeCounted<'a, T, Count>, DecodeError>,
    ) -> bool {
        exists|end: Cursor| #[trigger]
            Self::walked(before, end, r) && after == (if r is Ok {
                end
            } else {
                before
            })
    }

    fn decode(decoder: &mut Decoder<'a>) -> (r: Result<DecodeCounted<'a, T, Count>, DecodeError>) {
        let mut cursor = decoder.clone();
        let r = Self::walk(&mut cursor);
        assert(Self::walked(old(decoder)@, cursor@, r));
        if r.is_ok() {
            *decoder = cursor;
        }
        r
    }
}

impl<'a, T, Count> DecodeCounted<'a, T, Count> where T: Decode<'a>, Count: Decode<'a> + Countdown {
    /// Whether reading the count at `before` and then decoding every item
    /// once may end at `end` with `r`: with the sequence, if the count and
    /// all the items decode, else with the first failure.
    pub open spec fn walked(
        before: Cursor,
        end: Cursor,
        r: Result<DecodeCounted<'a, T, Count>, DecodeError>,
    ) -> bool {
        exists|first: Cursor, count: Result<Count, DecodeError>| #[trigger]
            Count::decodes(before, first, count) && match count {
                Err(e) => end == first && r == Err::<DecodeCounted<'a, T, Count>, DecodeError>(e),
                Ok(n) => match r {
                    Ok(items) => items@ == (Counted { cursor: first, left: n.left() })
                        && repeats::<T>(first, n.left(), end, Ok(())),
                    Err(e) => repeats::<T>(first, n.left(), end, Err(e)),
                },
            }
    }

    /// Reads the count and decodes every item once, wherever that ends.
    fn walk(decoder: &mut Decoder<'a>) -> (r: Result<DecodeCounted<'a, T, Count>, DecodeError>)
        ensures
            Self::walked(old(decoder)@, final(decoder)@, r),
    {
        let count = decoder.read::<Count>();
        let ghost first = decoder@;
        assert(Count::decodes(old(decoder)@, first, count));
        let count = match count {
            Ok(count) => count,
            Err(e) => {
                return Err(e);
            },
        };
        let old_decoder = decoder.clone();

        let mut remaining = count;
        loop
            invariant
                Count::decodes(old(decoder)@, first, Ok(count)),
                old_decoder@ == first,
                forall|end: Cursor, r: Result<(), DecodeError>|
                    repeats::<T>(decoder@, remaining.left(), end, r) ==> #[trigger] repeats::<T>(
                        first,
                        count.left(),
                        end,
                        r,
                    ),
            decreases remaining.left(),
        {
            let ghost here = decoder@;
            let ghost k = remaining.left();
            match remaining.decrement() {
                CountState::Continue => {
                    let item = decoder.read::<T>();
                    match item {
                        Ok(_) => {
                            assert forall|end: Cursor, r: Result<(), DecodeError>|
                                repeats::<T>(decoder@, remaining.left(), end, r) implies #[trigger]
                                repeats::<T>(first, count.left(), end, r) by {
                                assert(T::decodes(here, decoder@, item));
                                assert(repeats::<T>(here, k, end, r));
                            }
                        },
                        Err(e) => {
                            assert(T::decodes(here, decoder@, item));
                            assert(repeats::<T>(here, k, decoder@, Err(e)));
                            return Err(e);
                        },
                    }
                },
                CountState::Break => {
                    assert(repeats::<T>(decoder@, 0, decoder@, Ok(())));
                    return Ok(
                        DecodeCounted {
                            decoder: old_decoder,
                            remaining: count,
                            failed: false,
                            marker: PhantomData,
                        },
                    );
                },
            }
        }
    }
}

impl<'a, T, Count> DecodeInto<'a> for DecodeCounted<'a, T, Count> where
    T: Decode<'a>,
    Count: Decode<'a> + Countdown,
 {
    /// Only the count is read. The items are decoded when they are asked for.
    open spec fn decodes_into(from: Cursor, r: Result<DecodeCounted<'a, T, Count>, DecodeError>) -> bool {
        exists|first: Cursor, count: Result<Count, DecodeError>| #[trigger]
            Count::decodes(from, first, count) && match count {
                Err(e) => r == Err::<DecodeCounted<'a, T, Count>, DecodeError>(e),
                Ok(n) => r matches Ok(items)
                    && items@ == (Counted { cursor: first, left: n.left() }),
            }
    }

    fn decode_into(decoder: Decoder<'a>) -> (r: Result<DecodeCounted<'a, T, Count>, DecodeError>) {
        let mut decoder = decoder;
        let ghost from = decoder@;
        let count = decoder.read::<Count>();
        assert(Count::decodes(from, decoder@, count));
        match count {
            Ok(remaining) => Ok(
                DecodeCounted { decoder, remaining, failed: false, marker: PhantomData },
            ),
            Err(e) => Err(e),
        }
    }
}

/// A counted sequence that can be walked any number of times: each walk
/// starts at the first item again.
#[derive(Debug)]
pub struct DecodeCountedCopy<'a, T, Count> {
    iter: DecodeCounted<'a, T, Count>,
}

impl<'a, T, Count: Countdown> View for DecodeCountedCopy<'a, T, Count> {
    type V = Counted;

    closed spec fn view(&self) -> Counted {
        self.iter@
    }
}

impl<'a, T, Count: Countdown> DecodeCountedCopy<'a, T, Count> {
    /// A fresh walk over the sequence, independent of every earlier one.
    pub fn iter(&self) -> (r: DecodeCounted<'a, T, Count>)
        ensures
            r@ == self@,
    {
        self.iter.clone()
    }
}

impl<'a, T, Count: Countdown> Clone for DecodeCountedCopy<'a, T, Count> {
    fn clone(&self) -> (r: DecodeCountedCopy<'a, T, Count>)
        ensures
            r@ == self@,
    {
        DecodeCountedCopy { iter: self.iter.clone() }
    }
}

impl<'a, T, Count> Decode<'a> for DecodeCountedCopy<'a, T, Count> where
    T: Decode<'a>,
    Count: Decode<'a> + Countdown,
 {
    open spec fn decodes(
        before: Cursor,
        after: Cursor,
        r: Result<DecodeCountedCopy<'a, T, Count>, DecodeError>,
    ) -> bool {
        exists|inner: Result<DecodeCounted<'a, T, Count>, DecodeError>| #[trigger]
            DecodeCounted::<'a, T, Count>::decodes(before, after, inner) && match inner {
                Ok(items) => r matches Ok(copy) && copy@ == items@,
                Err(e) => r == Err::<DecodeCountedCopy<'a, T, Count>, DecodeError>(e),
            }
    }

    fn decode(decoder: &mut Decoder<'a>) -> (r: Result<
        DecodeCountedCopy<'a, T, Count>,
        DecodeError,
    >) {
        let inner = decoder.read::<DecodeCounted<'a, T, Count>>();
        assert(DecodeCounted::<'a, T, Count>::decodes(old(decoder)@, decoder@, inner));
        match inner {
            Ok(iter) => Ok(DecodeCountedCopy { iter }),
            Err(e) => Err(e),
        }
    }
}

impl<'a, T, Count> DecodeInto<'a> for DecodeCountedCopy<'a, T, Count> where
    T: Decode<'a>,
    Count: Decode<'a> + Countdown,
 {
    open spec fn decodes_into(
        from: Cursor,
        r: Result<DecodeCountedCopy<'a, T, Count>, DecodeError>,
    ) -> bool {
        exists|inner: Result<DecodeCounted<'a, T, Count>, DecodeError>| #[trigger]
            DecodeCounted::<'a, T, Count>::decodes_into(from, inner) && match inner {
                Ok(items) => r matches Ok(copy) && copy@ == items@,
                Err(e) => r == Err::<DecodeCountedCopy<'a, T, Count>, DecodeError>(e),
            }
    }

    fn decode_into(decoder: Decoder<'a>) -> (r: Result<
        DecodeCountedCopy<'a, T, Count>,
        DecodeError,
    >) {
        let ghost from = decoder@;
        let inner = decoder.read_into::<DecodeCounted<'a, T, Count>>();
        assert(DecodeCounted::<'a, T, Count>::decodes_into(from, inner));
        match inner {
            Ok(iter) => Ok(DecodeCountedCopy { iter }),
            Err(e) => Err(e),
        }
    }
}

} // verus!

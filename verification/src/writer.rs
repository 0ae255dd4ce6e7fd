//! Assembling a class: one output buffer that is split, at the end of the
//! constant pool, into a head and a tail.
//!
//! The head holds the start of the class and the constant pool; the tail holds
//! everything behind the pool. New constants are spliced in at the end of the
//! head while the tail already holds content, so every position that a writer
//! keeps for later patching is counted from the end of the head. Such a
//! position stays right however much the pool grows.

pub mod attributes;
pub mod encoding;

use crate::bigendian::{be_bytes, lemma_be_bytes_len, write_unsigned};
use crate::error::{Context, EncodeError, EncodeErrorKind};
use crate::header::{Version, MAGIC};
use crate::reader::cpool::{all_encodable, copied_slots, entries_bytes, index_of, pool_encoding};
use crate::reader::cpool::{lemma_copied_slots_first, lemma_copied_slots_push};
use crate::reader::cpool::lemma_entries_bytes_push;
use crate::reader::cpool::{ConstantPool, Index, Item};
use crate::writer::encoding::{patched, Encode, Encoder, Offset, VecEncoder};
use vstd::prelude::*;

verus! {

/// What a [`ClassWriter`] stands for.
pub struct Layout {
    /// The bytes up to the end of the constant pool.
    pub head: Seq<u8>,
    /// The bytes behind the constant pool.
    pub tail: Seq<u8>,
    /// The number that the pool's count field holds: one more than the number
    /// of slots that the pool's entries take up.
    pub slots: nat,
}

impl Layout {
    /// The whole output.
    pub open spec fn bytes(self) -> Seq<u8> {
        self.head + self.tail
    }

    /// This layout with `bytes` appended to the tail.
    pub open spec fn appended(self, bytes: Seq<u8>) -> Layout {
        Layout { head: self.head, tail: self.tail + bytes, slots: self.slots }
    }

    /// This layout with the tail overwritten by `bytes` from `at` on.
    pub open spec fn repaired(self, at: int, bytes: Seq<u8>) -> Layout {
        Layout { head: self.head, tail: patched(self.tail, at, bytes), slots: self.slots }
    }

    /// This layout with a pool entry `entry` that takes up `slots` slots added
    /// at the end of the pool, and the pool's count field brought up to date.
    pub open spec fn grown(self, entry: Seq<u8>, slots: nat) -> Layout {
        Layout {
            head: patched(self.head, 8, be_bytes(self.slots + slots, 2)) + entry,
            tail: self.tail,
            slots: self.slots + slots,
        }
    }

    /// Whether this layout and `base` agree on the first `n` bytes of the
    /// tail. A writer that starts at position `n` of the tail, and from there
    /// on only appends, patches what it appended itself and adds to the pool,
    /// keeps the first `n` bytes of whatever it was handed.
    pub open spec fn keeps(self, base: Layout, n: nat) -> bool {
        n <= self.tail.len() && n <= base.tail.len() && self.tail.take(n as int) == base.tail.take(
            n as int,
        )
    }
}

/// What is kept over two steps is kept over both, up to the earlier mark.
pub proof fn lemma_keeps_transitive(a: Layout, b: Layout, c: Layout, n: nat, m: nat)
    requires
        b.keeps(a, n),
        c.keeps(b, m),
        n <= m,
    ensures
        c.keeps(a, n),
{
    assert(c.tail.take(n as int) == c.tail.take(m as int).take(n as int));
    assert(b.tail.take(n as int) == b.tail.take(m as int).take(n as int));
}

/// Whether `after` is `base` with the entries in `slots` added to the pool,
/// one by one: the tail and the start of the class are as they were, the
/// entries stand behind what the pool held, in their order, and the count
/// field holds the new number of slots.
pub open spec fn added(base: Layout, slots: Seq<Option<Item>>, after: Layout) -> bool {
    &&& after.tail == base.tail
    &&& after.slots == base.slots + copied_slots(slots)
    &&& after.head.len() >= 10
    &&& after.head.subrange(0, 8) == base.head.subrange(0, 8)
    &&& after.head.subrange(8, 10) == be_bytes(after.slots, 2)
    &&& after.head.skip(10) == base.head.skip(10) + entries_bytes(slots)
}

/// The error with which a pool whose count field holds `slots` refuses
/// `item`, if it does: `TooManyBytes` for a string that is longer than its
/// length can express, `TooManyItems` for an entry that the pool has no
/// slots left for. Both name the slot that the entry would have got.
pub open spec fn refusal(item: Item, slots: nat) -> Option<EncodeError> {
    if !item.encodable() {
        Some(
            EncodeError {
                kind: EncodeErrorKind::TooManyBytes,
                position: None,
                context: Context::ConstantPool(slots as u16),
            },
        )
    } else if slots + item.slots() > u16::MAX {
        Some(
            EncodeError {
                kind: EncodeErrorKind::TooManyItems,
                position: None,
                context: Context::ConstantPool(slots as u16),
            },
        )
    } else {
        None
    }
}

/// The first constant of a class: a new class to which one entry that takes
/// up one slot has been added holds, behind the start of the class, the
/// encoding of a pool with just this entry.
pub proof fn lemma_first_constant(base: Layout, item: Item)
    requires
        base.head.len() == 10,
        base.slots == 1,
        item.slots() == 1,
    ensures
        base.grown(item.encoding(), 1).head.skip(8) == pool_encoding(seq![Some(item)]),
{
    let slots = seq![Some(item)];
    assert(slots.drop_last() == Seq::<Option<Item>>::empty());
    assert(slots.last() == Some(item));
    assert(copied_slots(slots) == 1) by {
        assert(copied_slots(slots.drop_last()) == 0);
    }
    assert(entries_bytes(slots) == Seq::<u8>::empty() + item.encoding()) by {
        assert(entries_bytes(slots.drop_last()) == Seq::<u8>::empty());
    }
    lemma_be_bytes_len(2, 2);
    assert(base.grown(item.encoding(), 1).head.skip(8) == be_bytes(2, 2) + item.encoding());
}

/// The output buffer of one class, together with the place where its constant
/// pool ends.
#[derive(Debug)]
pub struct ClassWriter {
    encoder: VecEncoder,
    pool_end: Offset,
    slots: u16,
}

impl View for ClassWriter {
    type V = Layout;

    closed spec fn view(&self) -> Layout {
        Layout {
            head: self.encoder@.take(self.pool_end.0 as int),
            tail: self.encoder@.skip(self.pool_end.0 as int),
            slots: self.slots as nat,
        }
    }
}

impl ClassWriter {
    /// The pool ends inside the buffer, behind the start of the class and the
    /// pool's count field, and the count field holds the number of slots.
    /// `new` makes a writer that is well formed, and every operation keeps it
    /// so.
    pub closed spec fn wf(&self) -> bool {
        10 <= self.pool_end.0 <= self.encoder@.len() && self.slots >= 1
            && self.encoder@.subrange(8, 10) == be_bytes(self.slots as nat, 2)
    }

    /// A class of the given version with an empty constant pool and nothing
    /// behind it.
    pub fn new(version: Version) -> (r: ClassWriter)
        ensures
            r.wf(),
            r@ == (Layout {
                head: be_bytes(MAGIC as nat, 4) + be_bytes(version.minor as nat, 2) + be_bytes(
                    version.major as nat,
                    2,
                ) + be_bytes(1, 2),
                tail: Seq::empty(),
                slots: 1,
            }),
    {
        let mut encoder = VecEncoder::with_capacity(2048);
        let _ = encoder.write(MAGIC);
        let _ = encoder.write(version.minor);
        let _ = encoder.write(version.major);
        let _ = encoder.write(1u16);
        proof {
            lemma_be_bytes_len(MAGIC as nat, 4);
            lemma_be_bytes_len(version.minor as nat, 2);
            lemma_be_bytes_len(version.major as nat, 2);
            lemma_be_bytes_len(1, 2);
        }
        let pool_end = encoder.position();
        let r = ClassWriter { encoder, pool_end, slots: 1 };
        assert(r.encoder@.subrange(8, 10) == be_bytes(1, 2));
        assert(r@.head == r.encoder@);
        assert(r@.tail == Seq::<u8>::empty());
        r
    }

    /// The position behind the last byte of the tail, counted from the end of
    /// the constant pool.
    pub fn position(&self) -> (r: Offset)
        requires
            self.wf(),
        ensures
            r.0 == self@.tail.len(),
    {
        self.encoder.position().sub(self.pool_end)
    }

    /// The number of the slot that the next pool entry will get.
    pub fn slots(&self) -> (r: u16)
        ensures
            r == self@.slots,
    {
        self.slots
    }

    /// Adds `entry`, the encoding of one constant that takes up `slots` slots,
    /// at the end of the pool, and returns the number of its first slot. The
    /// tail is pushed back as it is. A pool cannot hold more slots than its
    /// count field can express.
    pub fn insert_entry(&mut self, entry: &[u8], slots: u16) -> (r: Result<u16, EncodeError>)
        requires
            old(self).wf(),
        ensures
            final(self).wf(),
            match r {
                Ok(index) => old(self)@.slots + slots <= u16::MAX && index == old(self)@.slots
                    && final(self)@ == old(self)@.grown(entry@, slots as nat),
                Err(e) => old(self)@.slots + slots > u16::MAX && e == (EncodeError {
                    kind: EncodeErrorKind::TooManyItems,
                    position: None,
                    context: Context::ConstantPool(old(self)@.slots as u16),
                }) && final(self)@ == old(self)@,
            },
    {
        let index = self.slots;
        let count = match self.slots.checked_add(slots) {
            Some(count) => count,
            None => {
                return Err(
                    EncodeError::with_context(
                        EncodeErrorKind::TooManyItems,
                        Context::ConstantPool(index),
                    ),
                );
            },
        };
        let ghost before = self.encoder@;
        let ghost end = self.pool_end.0 as int;
        let _ = self.encoder.inserting(self.pool_end).write_bytes(entry);
        let field = write_unsigned(count as u128, 2);
        proof {
            lemma_be_bytes_len(count as nat, 2);
        }
        let _ = self.encoder.replacing(Offset::new(8)).write_bytes(field.as_slice());
        let _ = self.encoder.position();
        self.pool_end = Offset::new(self.pool_end.0 + entry.len());
        self.slots = count;
        proof {
            let grown = old(self)@.grown(entry@, slots as nat);
            assert(self.encoder@.subrange(8, 10) == be_bytes(count as nat, 2));
            assert(self@.head =~= grown.head);
            assert(self@.tail =~= grown.tail);
        }
        Ok(index)
    }

    /// Adds `item` at the end of the pool and returns its number. A string
    /// that is longer than its length field can express cannot be added.
    pub fn insert_constant<'a>(&mut self, item: &Item<'a>) -> (r: Result<
        Index<Item<'a>>,
        EncodeError,
    >)
        requires
            old(self).wf(),
        ensures
            final(self).wf(),
            match r {
                Ok(index) => item.encodable() && old(self)@.slots + item.slots() <= u16::MAX
                    && index@ == old(self)@.slots && final(self)@ == old(self)@.grown(
                    item.encoding(),
                    item.slots(),
                ),
                Err(e) => final(self)@ == old(self)@ && e.position is None && e.context
                    == Context::ConstantPool(old(self)@.slots as u16) && if item.encodable() {
                    old(self)@.slots + item.slots() > u16::MAX && e.kind
                        == EncodeErrorKind::TooManyItems
                } else {
                    e.kind == EncodeErrorKind::TooManyBytes
                },
            },
    {
        if let Item::Utf8(v) = item {
            if v.content.len() > 0xFFFF {
                return Err(
                    EncodeError::with_context(
                        EncodeErrorKind::TooManyBytes,
                        Context::ConstantPool(self.slots),
                    ),
                );
            }
        }
        let bytes = item.to_bytes();
        let slots: u16 = if item.is_wide() {
            2
        } else {
            1
        };
        let number = self.insert_entry(bytes.as_slice(), slots)?;
        Ok(index_of(number as u64))
    }

    /// Adds every entry of `pool`, in the order in which they stand there.
    /// If the pool of this writer was empty, the entries keep their numbers
    /// and the pool is written as `pool` was read. The first entry that
    /// cannot be added ends the copying: the entries in front of it have been
    /// added, and the error is the one that this entry is refused with.
    #[verifier::rlimit(40)]
    pub fn insert_pool<'a>(&mut self, pool: &ConstantPool<'a>) -> (r: Result<(), EncodeError>)
        requires
            old(self).wf(),
        ensures
            final(self).wf(),
            match r {
                Ok(()) => added(old(self)@, pool@, final(self)@),
                Err(e) => exists|i: int|
                    #![trigger pool@[i]]
                    0 <= i < pool@.len() && pool@[i] is Some && added(
                        old(self)@,
                        pool@.take(i),
                        final(self)@,
                    ) && refusal(pool@[i]->0, final(self)@.slots) == Some(e),
            },
            all_encodable(pool@) && old(self)@.slots + copied_slots(pool@) <= u16::MAX ==> r is Ok,
            r is Ok && old(self)@.slots == 1 && old(self)@.head.len() == 10 ==> final(self)@.head
                == old(self)@.head.take(8) + pool_encoding(pool@),
    {
        let ghost before = self@;
        proof {
            self.lemma_head();
            assert(pool@.skip(0) == pool@);
            assert(pool@.take(0) == Seq::<Option<Item<'a>>>::empty());
            assert(before.head.skip(10) + Seq::<u8>::empty() == before.head.skip(10));
        }
        let mut i: usize = 0;
        while i < pool.len()
            invariant
                i <= pool@.len(),
                self.wf(),
                before == old(self)@,
                all_encodable(pool@)
                    && before.slots + copied_slots(pool@) <= u16::MAX ==> self@.slots
                    + copied_slots(pool@.skip(i as int)) <= u16::MAX,
                self@.tail == before.tail,
                self@.head.len() >= 10,
                before.head.len() >= 10,
                self@.slots == before.slots + copied_slots(pool@.take(i as int)),
                self@.head.subrange(0, 8) == before.head.subrange(0, 8),
                self@.head.skip(10) == before.head.skip(10) + entries_bytes(
                    pool@.take(i as int),
                ),
            decreases pool@.len() - i,
        {
            let ghost here = self@;
            let ghost done = pool@.take(i as int);
            proof {
                lemma_copied_slots_first(pool@.skip(i as int));
                assert(pool@.skip(i as int).skip(1) == pool@.skip(i + 1));
                assert(pool@.skip(i as int)[0] == pool@[i as int]);
                assert(pool@.take(i + 1) == done.push(pool@[i as int]));
                assert(pool@.take(i + 1).drop_last() == done);
                lemma_entries_bytes_push(done, pool@[i as int]);
                lemma_copied_slots_push(done, pool@[i as int]);
            }
            match pool.slot(i) {
                Some(item) => {
                    match self.insert_constant(item) {
                        Ok(_) => {},
                        Err(e) => {
                            proof {
                                self.lemma_head();
                                assert(added(before, pool@.take(i as int), self@));
                                assert(refusal(*item, self@.slots) == Some(e));
                            }
                            return Err(e);
                        },
                    }
                    proof {
                        lemma_be_bytes_len((here.slots + item.slots()) as nat, 2);
                        let field = be_bytes((here.slots + item.slots()) as nat, 2);
                        let fixed = patched(here.head, 8, field);
                        assert(self@.head == fixed + item.encoding());
                        assert(self@.head.subrange(0, 8) == here.head.subrange(0, 8));
                        assert(self@.head.skip(10) == here.head.skip(10) + item.encoding());
                    }
                },
                None => {
                    proof {
                        let bytes = entries_bytes(done);
                        assert(bytes + Seq::<u8>::empty() == bytes);
                    }
                },
            }
            i += 1;
        }
        proof {
            assert(pool@.take(i as int) == pool@);
            self.lemma_head();
            if before.slots == 1 && before.head.len() == 10 {
                assert(before.head.skip(10) == Seq::<u8>::empty());
                assert(self@.head == self@.head.subrange(0, 8) + self@.head.subrange(8, 10)
                    + self@.head.skip(10));
                assert(self@.head == before.head.take(8) + pool_encoding(pool@));
            }
        }
        Ok(())
    }

    /// The head is at least the start of the class and the count field of
    /// the pool, and the count field holds the number of slots.
    pub proof fn lemma_head(&self)
        requires
            self.wf(),
        ensures
            self@.head.len() >= 10,
            self@.slots >= 1,
            self@.head.subrange(8, 10) == be_bytes(self@.slots, 2),
    {
        assert(self@.head.subrange(8, 10) == self.encoder@.subrange(8, 10));
    }

    /// Overwrites the tail with `bytes` from `at` on, where `at` is counted
    /// from the end of the constant pool. Only bytes that exist can be
    /// overwritten.
    pub fn patch(&mut self, at: Offset, bytes: &[u8])
        requires
            old(self).wf(),
            at.0 + bytes@.len() <= old(self)@.tail.len(),
        ensures
            final(self).wf(),
            final(self)@ == old(self)@.repaired(at.0 as int, bytes@),
    {
        let _ = self.encoder.position();
        let _ = self.encoder.replacing(at.add(self.pool_end)).write_bytes(bytes);
        proof {
            let repaired = old(self)@.repaired(at.0 as int, bytes@);
            assert(self.encoder@.subrange(8, 10) == old(self).encoder@.subrange(8, 10));
            assert(self@.head =~= repaired.head);
            assert(self@.tail =~= repaired.tail);
        }
    }

    /// Appends the encoding of `value` to the tail and hands the writer back
    /// for the next write.
    pub fn write<T: Encode>(&mut self, value: T) -> (r: Result<&mut Self, EncodeError>)
        requires
            old(self).wf(),
        ensures
            r matches Ok(w) && w.wf() && w@ == old(self)@.appended(value.encoding()) && *final(w)
                == *final(self),
    {
        let _ = value.encode(self);
        Ok(self)
    }

    /// The finished output.
    pub fn into_bytes(self) -> (r: Vec<u8>)
        requires
            self.wf(),
        ensures
            r@ == self@.bytes(),
    {
        proof {
            assert(self.encoder@ =~= self@.head + self@.tail);
        }
        self.encoder.into_inner()
    }
}

impl Encoder for ClassWriter {
    /// A well-formed writer always has room at the end of the tail.
    open spec fn fits(self, n: nat) -> bool {
        self.wf()
    }

    /// The bytes are appended to the tail. This never fails.
    open spec fn wrote(
        before: ClassWriter,
        bytes: Seq<u8>,
        after: ClassWriter,
        r: Result<(), EncodeError>,
    ) -> bool {
        r is Ok && after.wf() && after@ == before@.appended(bytes)
    }

    fn write_bytes(&mut self, bytes: &[u8]) -> (r: Result<(), EncodeError>) {
        let _ = self.encoder.write_bytes(bytes);
        proof {
            let appended = old(self)@.appended(bytes@);
            assert(self.encoder@.subrange(8, 10) == old(self).encoder@.subrange(8, 10));
            assert(self@.head =~= appended.head);
            assert(self@.tail =~= appended.tail);
        }
        Ok(())
    }
}

} // verus!

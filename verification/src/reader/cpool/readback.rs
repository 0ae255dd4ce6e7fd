//! What is written into a pool is what is read from it.
//!
//! The encoding of an entry tells where the entry ends, so the encodings of
//! the entries of a pool, written one behind the other, can be taken apart
//! in one way only. A pool that is decoded from the encoding of some entries
//! therefore holds entries with just these encodings, slot by slot, and a
//! string that was written as a constant is read back byte for byte.

use crate::bigendian::{be_bytes, lemma_be_bytes_len, lemma_span_values, lemma_value_of_bytes};
use crate::error::DecodeError;
use crate::mutf8::MStr;
use crate::reader::cpool::value::ToValue;
use crate::reader::cpool::{all_valid, copied_slots, entries_bytes, filled, is_wide};
use crate::reader::cpool::{lemma_entry_scans, pool_encoding, scan_entries};
use crate::reader::cpool::{ConstantPool, Failure, Index, Item, Utf8};
use crate::reader::decoding::{Cursor, Decode};
use vstd::prelude::*;

verus! {

/// The bytes that a slot adds to the encoding of a pool.
pub open spec fn slot_bytes(slot: Option<Item>) -> Seq<u8> {
    match slot {
        Some(item) => item.encoding(),
        None => Seq::empty(),
    }
}

/// Whether two slots hold the same: both nothing, or entries with the same
/// encoding.
pub open spec fn same_slot(a: Option<Item>, b: Option<Item>) -> bool {
    match (a, b) {
        (None, None) => true,
        (Some(x), Some(y)) => x.encoding() == y.encoding(),
        _ => false,
    }
}

/// Whether `slots` are all the slots of a pool: they are filled the way a
/// pool is, every entry is valid, and the last entry, if it is an eight-byte
/// number, has its second slot.
pub open spec fn whole(slots: Seq<Option<Item>>) -> bool {
    &&& filled(slots)
    &&& all_valid(slots)
    &&& slots.len() > 0 && slots.last() is Some ==> slots.last()->0.slots() == 1
}

/// The encoding of the first slot stands in front of the encodings of the
/// others.
pub proof fn lemma_entries_bytes_first(slots: Seq<Option<Item>>)
    requires
        slots.len() > 0,
    ensures
        entries_bytes(slots) == slot_bytes(slots[0]) + entries_bytes(slots.skip(1)),
    decreases slots.len(),
{
    if slots.len() == 1 {
        assert(slots.drop_last() == Seq::<Option<Item>>::empty());
        assert(slots.skip(1) == Seq::<Option<Item>>::empty());
        assert(slots.last() == slots[0]);
        assert(entries_bytes(slots.drop_last()) == Seq::<u8>::empty());
        assert(entries_bytes(slots) == Seq::<u8>::empty() + slot_bytes(slots[0]));
        assert(slot_bytes(slots[0]) + Seq::<u8>::empty() == slot_bytes(slots[0]));
    } else {
        lemma_entries_bytes_first(slots.drop_last());
        assert(slots.drop_last().skip(1) == slots.skip(1).drop_last());
        assert(slots.drop_last()[0] == slots[0]);
        assert(slots.skip(1).last() == slots.last());
        assert(slot_bytes(slots[0]) + entries_bytes(slots.skip(1).drop_last()) + slot_bytes(
            slots.last(),
        ) == slot_bytes(slots[0]) + (entries_bytes(slots.skip(1).drop_last()) + slot_bytes(
            slots.last(),
        )));
    }
}

/// Slots that are filled the way a pool is take up as many slots as they
/// are, and one more if they end in the middle of an eight-byte number.
pub proof fn lemma_copied_slots_of_filled(slots: Seq<Option<Item>>)
    requires
        filled(slots),
    ensures
        copied_slots(slots) == slots.len() + (if slots.len() > 0 && slots.last() is Some
            && slots.last()->0.slots() == 2 {
            1nat
        } else {
            0nat
        }),
    decreases slots.len(),
{
    if slots.len() > 0 {
        let front = slots.drop_last();
        assert forall|i: int| 0 <= i < front.len() implies ((#[trigger] front[i]) is None <==> i > 0
            && front[i - 1] is Some && front[i - 1]->0.slots() == 2) by {
            assert(front[i] == slots[i]);
        }
        lemma_copied_slots_of_filled(front);
        let last = slots.len() - 1;
        assert(slots[last] == slots.last());
        if last > 0 {
            assert(front.last() == slots[last - 1]);
        }
    }
}

/// The encoding of whole slots, from an entry on, is scanned as the entries
/// of a pool with just these slots.
pub proof fn lemma_written_entries_scan(written: Seq<Option<Item>>, k: int, rest: Seq<u8>)
    requires
        whole(written),
        0 <= k <= written.len(),
        k < written.len() ==> written[k] is Some,
    ensures
        scan_entries(
            entries_bytes(written.skip(k)) + rest,
            k as nat,
            (written.len() + 1) as nat,
        ) == Ok::<nat, (nat, nat, Failure)>(entries_bytes(written.skip(k)).len()),
    decreases written.len() - k,
{
    let count = (written.len() + 1) as nat;
    let here = written.skip(k);
    if k == written.len() {
        assert(here == Seq::<Option<Item>>::empty());
    } else {
        let item = written[k]->0;
        lemma_entries_bytes_first(here);
        assert(here[0] == written[k]);
        assert(here.skip(1) == written.skip(k + 1));
        let behind = entries_bytes(written.skip(k + 1));
        let bytes = entries_bytes(here) + rest;
        assert(bytes == item.encoding() + (behind + rest));
        lemma_entry_scans(item, behind + rest);
        let n = item.encoding().len();
        assert(bytes[0] == item.tag());
        assert(bytes.skip(n as int) == behind + rest);
        if is_wide(item.tag()) {
            // the second slot of the number is there and holds nothing
            assert(written[written.len() - 1] == written.last());
            assert(k + 1 < written.len());
            assert(written[k + 1] is None);
            lemma_entries_bytes_first(written.skip(k + 1));
            assert(written.skip(k + 1)[0] == written[k + 1]);
            assert(written.skip(k + 1).skip(1) == written.skip(k + 2));
            assert(Seq::<u8>::empty() + entries_bytes(written.skip(k + 2)) == entries_bytes(
                written.skip(k + 2),
            ));
            if k + 2 < written.len() {
                assert(written[k + 2] is Some);
            }
            lemma_written_entries_scan(written, k + 2, rest);
        } else {
            if k + 1 < written.len() {
                assert(written[k + 1] is Some);
            }
            lemma_written_entries_scan(written, k + 1, rest);
        }
    }
}

/// The encodings of the entries of a pool can be taken apart in one way
/// only: two rows of slots with the same encoding hold the same, slot by
/// slot, as far as both go.
pub proof fn lemma_slots_agree(a: Seq<Option<Item>>, b: Seq<Option<Item>>, i: int)
    requires
        filled(a),
        all_valid(a),
        filled(b),
        all_valid(b),
        entries_bytes(a) == entries_bytes(b),
        0 <= i < a.len(),
        i < b.len(),
    ensures
        same_slot(a[i], b[i]),
        entries_bytes(a.skip(i + 1)) == entries_bytes(b.skip(i + 1)),
    decreases i,
{
    if i == 0 {
        assert(a.skip(0) == a);
        assert(b.skip(0) == b);
    } else {
        lemma_slots_agree(a, b, i - 1);
        if a[i - 1] is Some {
            assert(a[i - 1]->0.encoding()[0] == a[i - 1]->0.tag());
            assert(b[i - 1]->0.encoding()[0] == b[i - 1]->0.tag());
        }
    }
    // both slots hold an entry, or neither does
    assert(a[i] is None <==> b[i] is None);
    lemma_entries_bytes_first(a.skip(i));
    lemma_entries_bytes_first(b.skip(i));
    assert(a.skip(i)[0] == a[i]);
    assert(b.skip(i)[0] == b[i]);
    assert(a.skip(i).skip(1) == a.skip(i + 1));
    assert(b.skip(i).skip(1) == b.skip(i + 1));
    let behind_a = entries_bytes(a.skip(i + 1));
    let behind_b = entries_bytes(b.skip(i + 1));
    match (a[i], b[i]) {
        (Some(x), Some(y)) => {
            lemma_entry_scans(x, behind_a);
            lemma_entry_scans(y, behind_b);
            let n = x.encoding().len() as int;
            assert((x.encoding() + behind_a).take(n) == x.encoding());
            assert((y.encoding() + behind_b).take(n) == y.encoding());
            assert((x.encoding() + behind_a).skip(n) == behind_a);
            assert((y.encoding() + behind_b).skip(n) == behind_b);
        },
        _ => {
            assert(Seq::<u8>::empty() + behind_a == behind_a);
            assert(Seq::<u8>::empty() + behind_b == behind_b);
        },
    }
}

/// An entry that has the encoding of a string is that string.
pub proof fn lemma_string_entry(item: Item, text: MStr)
    requires
        item.valid(),
        text@.len() <= u16::MAX,
        item.encoding() == Item::Utf8(Utf8 { content: text }).encoding(),
    ensures
        item matches Item::Utf8(v) && v.content@ == text@,
{
    let written = Item::Utf8(Utf8 { content: text });
    assert(item.encoding()[0] == item.tag());
    assert(written.encoding()[0] == 1);
    assert(item is Utf8);
    let read = item->Utf8_0.content@;
    lemma_span_values();
    lemma_be_bytes_len(read.len(), 2);
    lemma_be_bytes_len(text@.len(), 2);
    assert(item.body() == item.encoding().skip(1));
    assert(written.body() == written.encoding().skip(1));
    assert(item.body().take(2) == be_bytes(read.len(), 2));
    assert(written.body().take(2) == be_bytes(text@.len(), 2));
    lemma_value_of_bytes(read.len(), 2);
    lemma_value_of_bytes(text@.len(), 2);
    assert(item.body().skip(2) == read);
    assert(written.body().skip(2) == text@);
}

/// Rows of slots with the same encoding, one of them whole, the other at
/// most one slot longer, are equally long.
proof fn lemma_same_length(read: Seq<Option<Item>>, written: Seq<Option<Item>>)
    requires
        whole(written),
        filled(read),
        all_valid(read),
        entries_bytes(read) == entries_bytes(written),
        written.len() <= read.len() <= written.len() + 1,
    ensures
        read.len() == written.len(),
{
    if read.len() > written.len() {
        // a slot more would hold an entry that has no bytes
        let last = written.len() as int;
        if last == 0 {
            assert(read.skip(0) == read);
            assert(written == Seq::<Option<Item>>::empty());
            lemma_entries_bytes_first(read);
            assert(read[0] is Some);
            assert(read[0]->0.encoding().len() > 0);
        } else {
            lemma_slots_agree(read, written, last - 1);
            assert(written[last - 1] == written.last());
            assert(written.skip(last) == Seq::<Option<Item>>::empty());
            lemma_entries_bytes_first(read.skip(last));
            assert(read.skip(last)[0] == read[last]);
            if read[last - 1] is Some {
                assert(read[last - 1]->0.encoding()[0] == read[last - 1]->0.tag());
                assert(written[last - 1]->0.encoding()[0] == written[last - 1]->0.tag());
            }
            if read[last] is Some {
                assert(read[last]->0.encoding().len() > 0);
            }
        }
        assert(false);
    }
}

/// Where the encoding of whole slots stands, a pool is decoded, and the
/// entries that it holds have the encoding that was read.
proof fn lemma_written_pool_decodes<'a>(
    written: Seq<Option<Item<'a>>>,
    rest: Seq<u8>,
    before: Cursor,
    after: Cursor,
    r: Result<ConstantPool<'a>, DecodeError>,
)
    requires
        whole(written),
        written.len() < u16::MAX,
        before.remaining == pool_encoding(written) + rest,
        ConstantPool::decodes(before, after, r),
    ensures
        r matches Ok(pool) && filled(pool@) && all_valid(pool@) && entries_bytes(pool@)
            == entries_bytes(written) && written.len() <= pool@.len() <= written.len() + 1
            && after == before.skip(pool_encoding(written).len() as int),
{
    let count = (written.len() + 1) as nat;
    let entries = entries_bytes(written);
    lemma_copied_slots_of_filled(written);
    if written.len() > 0 {
        assert(written[written.len() - 1] == written.last());
    }
    lemma_span_values();
    lemma_be_bytes_len(count, 2);
    lemma_value_of_bytes(count, 2);
    assert(before.remaining == be_bytes(count, 2) + (entries + rest));
    assert(before.front(2) == be_bytes(count, 2));
    assert(before.remaining.skip(2) == entries + rest);
    assert(written.skip(0) == written);
    lemma_written_entries_scan(written, 0, rest);
    assert((entries + rest).subrange(0, entries.len() as int) == entries);
    assert(before.remaining.subrange(2, 2 + entries.len() as int) == entries);
    assert(before.remaining.skip(2).skip(entries.len() as int) == before.remaining.skip(
        2 + entries.len() as int,
    ));
}

/// A pool is read back from its own encoding: where the encoding of whole
/// slots stands, whatever follows it, a pool is decoded that has as many
/// slots, holds the same in every slot, and ends where the encoding ends.
pub proof fn lemma_pool_read_back<'a>(
    written: Seq<Option<Item<'a>>>,
    rest: Seq<u8>,
    before: Cursor,
    after: Cursor,
    r: Result<ConstantPool<'a>, DecodeError>,
)
    requires
        whole(written),
        written.len() < u16::MAX,
        before.remaining == pool_encoding(written) + rest,
        ConstantPool::decodes(before, after, r),
    ensures
        r matches Ok(pool) && pool@.len() == written.len() && (forall|i: int|
            0 <= i < written.len() ==> same_slot(#[trigger] pool@[i], written[i])) && after
            == before.skip(pool_encoding(written).len() as int),
{
    lemma_written_pool_decodes(written, rest, before, after, r);
    let pool = r->Ok_0;
    lemma_same_length(pool@, written);
    assert forall|i: int| 0 <= i < written.len() implies same_slot(
        #[trigger] pool@[i],
        written[i],
    ) by {
        lemma_slots_agree(pool@, written, i);
    }
}

/// A string that was written as a constant is read back byte for byte: a
/// pool that is decoded from the encoding of whole slots, one of which holds
/// the string `text`, resolves the number of that slot to a string with the
/// bytes of `text`.
pub proof fn lemma_string_constant_read_back<'a>(
    written: Seq<Option<Item<'a>>>,
    rest: Seq<u8>,
    before: Cursor,
    after: Cursor,
    pool: ConstantPool<'a>,
    index: Index<Utf8<'a>>,
    text: MStr<'a>,
)
    requires
        whole(written),
        written.len() < u16::MAX,
        before.remaining == pool_encoding(written) + rest,
        ConstantPool::decodes(before, after, Ok(pool)),
        1 <= index@ <= written.len(),
        written[index@ - 1] == Some(Item::Utf8(Utf8 { content: text })),
    ensures
        index.resolved(pool@) matches Ok(read) && read@ == text@,
{
    lemma_pool_read_back(written, rest, before, after, Ok(pool));
    let slot = index@ - 1;
    assert(same_slot(pool@[slot], written[slot]));
    assert(written[slot]->0.valid());
    assert(pool@[slot]->0.valid());
    lemma_string_entry(pool@[slot]->0, text);
}

} // verus!

//! Big-endian fixed-width integers: what a byte string means as a number and
//! which byte string stands for a number, with the facts that make one the
//! inverse of the other. Every integer of the format is read and written
//! through these definitions.

use vstd::prelude::*;

verus! {

/// The number of values that `width` bytes can tell apart: 256 to the `width`.
pub open spec fn span(width: nat) -> nat
    decreases width,
{
    if width == 0 {
        1
    } else {
        256 * span((width - 1) as nat)
    }
}

/// The unsigned number that `bytes` stands for, most significant byte first.
pub open spec fn be_value(bytes: Seq<u8>) -> nat
    decreases bytes.len(),
{
    if bytes.len() == 0 {
        0
    } else {
        be_value(bytes.drop_last()) * 256 + bytes.last() as nat
    }
}

/// The `width` bytes that stand for `value`, most significant byte first.
pub open spec fn be_bytes(value: nat, width: nat) -> Seq<u8>
    decreases width,
{
    if width == 0 {
        Seq::empty()
    } else {
        be_bytes(value / 256, (width - 1) as nat).push((value % 256) as u8)
    }
}

/// The two's complement reading of an unsigned `width`-byte value.
pub open spec fn signed(value: nat, width: nat) -> int {
    if 2 * value < span(width) {
        value as int
    } else {
        value - span(width)
    }
}

/// The unsigned `width`-byte value whose two's complement reading is `value`.
pub open spec fn unsigned(value: int, width: nat) -> nat {
    if value >= 0 {
        value as nat
    } else {
        (value + span(width)) as nat
    }
}

/// The spans of the widths that the format uses.
pub proof fn lemma_span_values()
    ensures
        span(0) == 1,
        span(1) == 0x100,
        span(2) == 0x1_0000,
        span(4) == 0x1_0000_0000,
        span(8) == 0x1_0000_0000_0000_0000,
        span(16) == 0x1_0000_0000_0000_0000_0000_0000_0000_0000,
{
    reveal_with_fuel(span, 17);
}

/// A wider field tells more values apart.
pub proof fn lemma_span_monotonic(narrow: nat, wide: nat)
    requires
        narrow <= wide,
    ensures
        0 < span(narrow) <= span(wide),
    decreases wide,
{
    if wide == 0 {
    } else if narrow == wide {
        lemma_span_monotonic((narrow - 1) as nat, (wide - 1) as nat);
    } else {
        lemma_span_monotonic(narrow, (wide - 1) as nat);
    }
}

/// A byte string stands for a number below the span of its length.
pub proof fn lemma_be_value_bound(bytes: Seq<u8>)
    ensures
        be_value(bytes) < span(bytes.len()),
    decreases bytes.len(),
{
    if bytes.len() > 0 {
        lemma_be_value_bound(bytes.drop_last());
    }
}

/// The number in front of one more byte.
pub proof fn lemma_be_value_push(bytes: Seq<u8>, last: u8)
    ensures
        be_value(bytes.push(last)) == be_value(bytes) * 256 + last,
{
    assert(bytes.push(last).drop_last() == bytes);
}

/// A number is written with exactly as many bytes as asked for.
pub proof fn lemma_be_bytes_len(value: nat, width: nat)
    ensures
        be_bytes(value, width).len() == width,
    decreases width,
{
    if width > 0 {
        lemma_be_bytes_len(value / 256, (width - 1) as nat);
    }
}

/// Reading what was written gives the number back, as long as the number
/// fits the width.
pub proof fn lemma_value_of_bytes(value: nat, width: nat)
    requires
        value < span(width),
    ensures
        be_value(be_bytes(value, width)) == value,
    decreases width,
{
    if width > 0 {
        let front = be_bytes(value / 256, (width - 1) as nat);
        lemma_value_of_bytes(value / 256, (width - 1) as nat);
        lemma_be_value_push(front, (value % 256) as u8);
    }
}

/// Writing what was read gives the same bytes back.
pub proof fn lemma_bytes_of_value(bytes: Seq<u8>)
    ensures
        be_bytes(be_value(bytes), bytes.len()) == bytes,
    decreases bytes.len(),
{
    if bytes.len() > 0 {
        let front = bytes.drop_last();
        lemma_bytes_of_value(front);
        let value = be_value(bytes);
        assert(value / 256 == be_value(front));
        assert(value % 256 == bytes.last() as nat);
        assert(front.push(bytes.last()) == bytes);
    }
}

/// The signed reading of a `width`-byte value lies in the two's complement
/// range of that width, and `unsigned` undoes it.
pub proof fn lemma_signed_range(value: nat, width: nat)
    requires
        value < span(width),
        width > 0,
    ensures
        -(span(width) as int) <= 2 * signed(value, width) < span(width),
        unsigned(signed(value, width), width) == value,
{
}

/// The unsigned stand-in of a signed number in the two's complement range of
/// `width` bytes fits the width, and `signed` undoes it.
pub proof fn lemma_unsigned_range(value: int, width: nat)
    requires
        -(span(width) as int) <= 2 * value < span(width),
    ensures
        unsigned(value, width) < span(width),
        signed(unsigned(value, width), width) == value,
{
}

/// The number that `bytes` stands for. At most sixteen bytes fit the result.
pub fn read_unsigned(bytes: &[u8]) -> (value: u128)
    requires
        bytes@.len() <= 16,
    ensures
        value == be_value(bytes@),
        value < span(bytes@.len()),
{
    let mut value: u128 = 0;
    let mut i: usize = 0;
    while i < bytes.len()
        invariant
            i <= bytes@.len() <= 16,
            value == be_value(bytes@.take(i as int)),
            value < span(i as nat),
        decreases bytes@.len() - i,
    {
        proof {
            let next = bytes@.take(i + 1);
            assert(next.drop_last() == bytes@.take(i as int));
            lemma_span_monotonic((i + 1) as nat, 16);
            lemma_span_values();
        }
        value = value * 256 + bytes[i] as u128;
        i += 1;
    }
    assert(bytes@.take(i as int) == bytes@);
    value
}

/// The two's complement reading of `bytes`.
pub fn read_signed(bytes: &[u8]) -> (value: i128)
    requires
        0 < bytes@.len() <= 16,
    ensures
        value == signed(be_value(bytes@), bytes@.len()),
{
    let raw = read_unsigned(bytes);
    let half = half_span(bytes.len());
    proof {
        lemma_span_values();
        lemma_span_monotonic(bytes@.len(), 16);
    }
    if raw < half {
        raw as i128
    } else {
        // raw - span, computed without leaving the range of `i128`
        let above = raw - half;
        let below = half - 1 - above;
        -(below as i128) - 1
    }
}

/// Half the span of `width` bytes: the first value whose signed reading is
/// negative.
pub fn half_span(width: usize) -> (half: u128)
    requires
        0 < width <= 16,
    ensures
        2 * half == span(width as nat),
{
    let mut half: u128 = 128;
    let mut i: usize = 1;
    proof {
        lemma_span_values();
    }
    while i < width
        invariant
            1 <= i <= width <= 16,
            2 * half == span(i as nat),
        decreases width - i,
    {
        proof {
            lemma_span_monotonic((i + 1) as nat, 16);
            lemma_span_values();
        }
        half = half * 256;
        i += 1;
    }
    half
}

/// The `width` bytes that stand for `value`.
pub fn write_unsigned(value: u128, width: usize) -> (bytes: Vec<u8>)
    requires
        width <= 16,
    ensures
        bytes@ == be_bytes(value as nat, width as nat),
{
    let mut bytes: Vec<u8> = Vec::new();
    let mut i: usize = 0;
    while i < width
        invariant
            i <= width,
            bytes@.len() == i,
        decreases width - i,
    {
        bytes.push(0);
        i += 1;
    }
    let mut rest = value;
    let mut left = width;
    while left > 0
        invariant
            left <= width,
            bytes@.len() == width,
            be_bytes(value as nat, width as nat) == be_bytes(rest as nat, left as nat)
                + bytes@.skip(left as int),
        decreases left,
    {
        let ghost before = bytes@;
        left -= 1;
        bytes[left] = (rest % 256) as u8;
        proof {
            let front = be_bytes(rest as nat / 256, left as nat);
            lemma_be_bytes_len(rest as nat / 256, left as nat);
            assert(front.push((rest % 256) as u8) + before.skip(left + 1) == front + bytes@.skip(
                left as int,
            ));
        }
        rest = rest / 256;
    }
    assert(bytes@.skip(0) == bytes@);
    bytes
}

/// The `width` bytes that stand for `value` in two's complement.
pub fn write_signed(value: i128, width: usize) -> (bytes: Vec<u8>)
    requires
        0 < width <= 16,
        -(span(width as nat) as int) <= 2 * value < span(width as nat),
    ensures
        bytes@ == be_bytes(unsigned(value as int, width as nat), width as nat),
{
    let half = half_span(width);
    proof {
        lemma_span_values();
        lemma_span_monotonic(width as nat, 16);
    }
    if value >= 0 {
        write_unsigned(value as u128, width)
    } else {
        // value + span, computed without leaving the range of `u128`
        let below = (-(value + 1)) as u128;
        let raw = (half - 1 - below) + half;
        write_unsigned(raw, width)
    }
}

} // verus!

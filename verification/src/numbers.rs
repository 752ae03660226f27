//! Fixed-width numbers in byte strings.
use vstd::prelude::*;

verus! {

/// The `width` little-endian bytes of `value`.
pub open spec fn le_bytes(value: nat, width: nat) -> Seq<u8>
    decreases width,
{
    if width == 0 {
        Seq::empty()
    } else {
        seq![(value % 256) as u8] + le_bytes(value / 256, (width - 1) as nat)
    }
}

/// The number that some little-endian bytes write.
pub open spec fn le_value(bytes: Seq<u8>) -> nat
    decreases bytes.len(),
{
    if bytes.len() == 0 {
        0
    } else {
        bytes[0] as nat + 256 * le_value(bytes.drop_first())
    }
}

/// 256 to the power of `width`.
pub open spec fn capacity(width: nat) -> nat
    decreases width,
{
    if width == 0 {
        1
    } else {
        256 * capacity((width - 1) as nat)
    }
}

/// The `width` big-endian bytes of `value`.
pub open spec fn be_bytes(value: nat, width: nat) -> Seq<u8>
    decreases width,
{
    if width == 0 {
        Seq::empty()
    } else {
        be_bytes(value / 256, (width - 1) as nat).push((value % 256) as u8)
    }
}

/// The number that some big-endian bytes write.
pub open spec fn be_value(bytes: Seq<u8>) -> nat
    decreases bytes.len(),
{
    if bytes.len() == 0 {
        0
    } else {
        be_value(bytes.drop_last()) * 256 + bytes.last() as nat
    }
}

/// Little-endian bytes give back the number that was written.
pub proof fn lemma_le_round_trip(value: nat, width: nat)
    requires
        value < capacity(width),
    ensures
        le_bytes(value, width).len() == width,
        le_value(le_bytes(value, width)) == value,
    decreases width,
{
    if width > 0 {
        lemma_le_round_trip(value / 256, (width - 1) as nat);
        let bytes = le_bytes(value, width);
        assert(bytes.drop_first() =~= le_bytes(value / 256, (width - 1) as nat));
    }
}

/// Big-endian bytes give back the number that was written.
pub proof fn lemma_be_round_trip(value: nat, width: nat)
    requires
        value < capacity(width),
    ensures
        be_bytes(value, width).len() == width,
        be_value(be_bytes(value, width)) == value,
    decreases width,
{
    if width > 0 {
        lemma_be_round_trip(value / 256, (width - 1) as nat);
        let bytes = be_bytes(value, width);
        assert(bytes.drop_last() =~= be_bytes(value / 256, (width - 1) as nat));
    }
}

/// The lengths of fixed-width numbers.
pub proof fn lemma_widths(value: nat, width: nat)
    ensures
        le_bytes(value, width).len() == width,
        be_bytes(value, width).len() == width,
    decreases width,
{
    if width > 0 {
        lemma_widths(value / 256, (width - 1) as nat);
    }
}

/// What two, four and eight bytes can hold.
pub proof fn lemma_capacities()
    ensures
        capacity(2) == 0x1_0000,
        capacity(4) == 0x1_0000_0000,
        capacity(8) == 0x1_0000_0000_0000_0000,
{
    reveal_with_fuel(capacity, 9);
}

/// Bytes write no more than their capacity.
pub proof fn lemma_values_in_range(bytes: Seq<u8>)
    ensures
        le_value(bytes) < capacity(bytes.len()),
        be_value(bytes) < capacity(bytes.len()),
    decreases bytes.len(),
{
    if bytes.len() > 0 {
        lemma_values_in_range(bytes.drop_first());
        lemma_values_in_range(bytes.drop_last());
    }
}

/// Append the `width` little-endian bytes of a number.
pub fn append_le(output: &mut Vec<u8>, value: u64, width: usize)
    ensures
        final(output)@ == old(output)@ + le_bytes(value as nat, width as nat),
    decreases width,
{
    let ghost before = output@;
    if width > 0 {
        output.push((value % 256) as u8);
        append_le(output, value / 256, width - 1);
    }
    assert(output@ =~= before + le_bytes(value as nat, width as nat));
}

/// Read a little-endian number of at most eight bytes.
pub fn read_le(bytes: &[u8]) -> (value: u64)
    requires
        bytes@.len() <= 8,
    ensures
        value == le_value(bytes@),
    decreases bytes@.len(),
{
    if bytes.len() == 0 {
        return 0;
    }
    let rest: &[u8] = &bytes[1..bytes.len()];
    assert(rest@ =~= bytes@.drop_first());
    let upper: u64 = read_le(rest);
    proof {
        lemma_values_in_range(rest@);
        lemma_capacity_monotone(rest@.len(), 7);
        reveal_with_fuel(capacity, 8);
    }
    bytes[0] as u64 + 256 * upper
}

proof fn lemma_capacity_monotone(small: nat, large: nat)
    requires
        small <= large,
    ensures
        1 <= capacity(small) <= capacity(large),
    decreases large,
{
    if small < large {
        lemma_capacity_monotone(small, (large - 1) as nat);
    } else if small > 0 {
        lemma_capacity_monotone((small - 1) as nat, (large - 1) as nat);
    }
}

/// Append the `width` big-endian bytes of a number.
pub fn append_be(output: &mut Vec<u8>, value: u64, width: usize)
    ensures
        final(output)@ == old(output)@ + be_bytes(value as nat, width as nat),
    decreases width,
{
    let ghost before = output@;
    if width > 0 {
        append_be(output, value / 256, width - 1);
        output.push((value % 256) as u8);
    }
    assert(output@ =~= before + be_bytes(value as nat, width as nat));
}

/// Read a big-endian number of at most eight bytes.
pub fn read_be(bytes: &[u8]) -> (value: u64)
    requires
        bytes@.len() <= 8,
    ensures
        value == be_value(bytes@),
    decreases bytes@.len(),
{
    if bytes.len() == 0 {
        return 0;
    }
    let rest: &[u8] = &bytes[0..bytes.len() - 1];
    assert(rest@ =~= bytes@.drop_last());
    let upper: u64 = read_be(rest);
    proof {
        lemma_values_in_range(rest@);
        lemma_capacity_monotone(rest@.len(), 7);
        reveal_with_fuel(capacity, 8);
    }
    upper * 256 + bytes[bytes.len() - 1] as u64
}

} // verus!

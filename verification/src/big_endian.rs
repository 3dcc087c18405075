//! Big-endian unsigned integers of a fixed byte width.

use vstd::prelude::*;

verus! {

/// The number of values that `width` bytes can hold.
pub open spec fn radix_power(width: nat) -> nat
    decreases width,
{
    if width == 0 {
        1
    } else {
        256 * radix_power((width - 1) as nat)
    }
}

/// The `width` low-order bytes of `value`, most significant byte first.
pub open spec fn be_bytes(value: nat, width: nat) -> Seq<u8>
    decreases width,
{
    if width == 0 {
        Seq::empty()
    } else {
        be_bytes(value / 256, (width - 1) as nat).push((value % 256) as u8)
    }
}

/// The unsigned integer that `bytes` holds, most significant byte first.
pub open spec fn be_value(bytes: Seq<u8>) -> nat
    decreases bytes.len(),
{
    if bytes.len() == 0 {
        0
    } else {
        256 * be_value(bytes.drop_last()) + bytes.last() as nat
    }
}

/// A fixed-width encoding has exactly that width.
pub broadcast proof fn lemma_be_bytes_len(value: nat, width: nat)
    ensures
        #[trigger] be_bytes(value, width).len() == width,
    decreases width,
{
    if width > 0 {
        lemma_be_bytes_len(value / 256, (width - 1) as nat);
    }
}

/// A value that fits its width is read back unchanged.
pub proof fn lemma_be_value_of_bytes(value: nat, width: nat)
    requires
        value < radix_power(width),
    ensures
        be_value(be_bytes(value, width)) == value,
    decreases width,
{
    if width > 0 {
        let bytes = be_bytes(value, width);
        assert(value / 256 < radix_power((width - 1) as nat));
        lemma_be_value_of_bytes(value / 256, (width - 1) as nat);
        assert(bytes.drop_last() =~= be_bytes(value / 256, (width - 1) as nat));
        assert(bytes.last() == (value % 256) as u8);
    }
}

/// Every byte string is the encoding of the value that it holds.
pub proof fn lemma_be_bytes_of_value(bytes: Seq<u8>)
    ensures
        be_bytes(be_value(bytes), bytes.len()) == bytes,
        be_value(bytes) < radix_power(bytes.len()),
    decreases bytes.len(),
{
    if bytes.len() > 0 {
        let rest = bytes.drop_last();
        lemma_be_bytes_of_value(rest);
        let value = be_value(bytes);
        assert(value / 256 == be_value(rest));
        assert(value % 256 == bytes.last() as nat);
        assert(be_bytes(value, bytes.len()) =~= bytes);
    }
}

/// A wider encoding holds more values.
pub proof fn lemma_radix_power_monotonic(narrow: nat, wide: nat)
    requires
        narrow <= wide,
    ensures
        radix_power(narrow) <= radix_power(wide),
    decreases wide,
{
    if narrow < wide {
        lemma_radix_power_monotonic(narrow, (wide - 1) as nat);
    }
}

/// The value ranges of the widths that the formats use.
pub proof fn lemma_radix_powers()
    ensures
        radix_power(4) == 0x1_0000_0000,
        radix_power(8) == 0x1_0000_0000_0000_0000,
        radix_power(16) == 0x1_0000_0000_0000_0000_0000_0000_0000_0000,
{
    reveal_with_fuel(radix_power, 17);
}

/// Appends the `width` low-order bytes of `value`, most significant byte first.
pub fn put_be(bytes: &mut Vec<u8>, value: u128, width: usize)
    ensures
        final(bytes)@ == old(bytes)@ + be_bytes(value as nat, width as nat),
    decreases width,
{
    if width > 0 {
        put_be(bytes, value / 256, width - 1);
        bytes.push((value % 256) as u8);
    }
    assert(bytes@ =~= old(bytes)@ + be_bytes(value as nat, width as nat));
}

/// Reads all of `bytes` as one unsigned integer, most significant byte first.
pub fn get_be(bytes: &[u8]) -> (value: u128)
    requires
        bytes@.len() <= 16,
    ensures
        value as nat == be_value(bytes@),
{
    let mut value: u128 = 0;
    let mut index: usize = 0;
    assert(bytes@.take(0) =~= Seq::<u8>::empty());
    while index < bytes.len()
        invariant
            index <= bytes@.len() <= 16,
            value as nat == be_value(bytes@.take(index as int)),
        decreases bytes@.len() - index,
    {
        proof {
            let next = bytes@.take(index + 1);
            assert(next.drop_last() =~= bytes@.take(index as int));
            lemma_be_bytes_of_value(next);
            lemma_radix_power_monotonic(next.len(), 16);
            lemma_radix_powers();
        }
        value = value * 256 + bytes[index] as u128;
        index = index + 1;
    }
    assert(bytes@.take(index as int) =~= bytes@);
    value
}

} // verus!

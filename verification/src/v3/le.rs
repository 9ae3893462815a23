//! Fixed-width little-endian integers: the least significant byte first, and
//! as many bytes as the width says, whatever the value.

use vstd::prelude::*;

verus! {

/// The number of values that `width` bytes can tell apart: 256 to the power
/// of `width`.
pub open spec fn radix(width: nat) -> nat
    decreases width,
{
    if width == 0 {
        1
    } else {
        256 * radix((width - 1) as nat)
    }
}

/// The `width` low bytes of `value`, least significant first.
pub open spec fn le_bytes(value: nat, width: nat) -> Seq<u8>
    decreases width,
{
    if width == 0 {
        Seq::empty()
    } else {
        seq![(value % 256) as u8] + le_bytes(value / 256, (width - 1) as nat)
    }
}

/// The number that `bytes` spell, least significant first.
pub open spec fn le_value(bytes: Seq<u8>) -> nat
    decreases bytes.len(),
{
    if bytes.len() == 0 {
        0
    } else {
        bytes[0] as nat + 256 * le_value(bytes.drop_first())
    }
}

/// The radix of each width up to eight bytes.
pub proof fn lemma_radix_values()
    ensures
        radix(0) == 1,
        radix(1) == 0x100,
        radix(2) == 0x1_0000,
        radix(3) == 0x100_0000,
        radix(4) == 0x1_0000_0000,
        radix(5) == 0x100_0000_0000,
        radix(6) == 0x1_0000_0000_0000,
        radix(7) == 0x100_0000_0000_0000,
        radix(8) == 0x1_0000_0000_0000_0000,
{
    reveal_with_fuel(radix, 9);
}

/// The encoding has as many bytes as the width says.
pub proof fn lemma_le_bytes_len(value: nat, width: nat)
    ensures
        le_bytes(value, width).len() == width,
    decreases width,
{
    if width > 0 {
        lemma_le_bytes_len(value / 256, (width - 1) as nat);
    }
}

/// What the bytes spell is below the radix of their number.
pub proof fn lemma_le_value_bound(bytes: Seq<u8>)
    ensures
        le_value(bytes) < radix(bytes.len()),
    decreases bytes.len(),
{
    if bytes.len() > 0 {
        lemma_le_value_bound(bytes.drop_first());
    }
}

/// Decoding undoes encoding for every value that fits the width.
pub proof fn lemma_le_value_of_bytes(value: nat, width: nat)
    requires
        value < radix(width),
    ensures
        le_value(le_bytes(value, width)) == value,
    decreases width,
{
    if width > 0 {
        let rest = le_bytes(value / 256, (width - 1) as nat);
        let all = le_bytes(value, width);
        lemma_le_bytes_len(value, width);
        lemma_le_value_of_bytes(value / 256, (width - 1) as nat);
        assert(all.drop_first() =~= rest);
    }
}

/// Encoding undoes decoding: the bytes are the only encoding of what they
/// spell at their width.
pub proof fn lemma_le_bytes_of_value(bytes: Seq<u8>)
    ensures
        le_bytes(le_value(bytes), bytes.len()) == bytes,
    decreases bytes.len(),
{
    if bytes.len() > 0 {
        let tail = bytes.drop_first();
        lemma_le_bytes_of_value(tail);
        let value = le_value(bytes);
        assert(value % 256 == bytes[0] as nat);
        assert(value / 256 == le_value(tail));
        assert(bytes =~= seq![bytes[0]] + tail);
    }
}

/// Appends the `width` low bytes of `value` to `out`, least significant first.
fn put_le(out: &mut Vec<u8>, value: u64, width: usize)
    requires
        width <= 8,
    ensures
        final(out)@ == old(out)@ + le_bytes(value as nat, width as nat),
{
    let ghost before = out@;
    let mut rest = value;
    let mut i: usize = 0;
    assert(out@ + le_bytes(rest as nat, width as nat) =~= before + le_bytes(
        value as nat,
        width as nat,
    ));
    while i < width
        invariant
            i <= width,
            out@ + le_bytes(rest as nat, (width - i) as nat) == before + le_bytes(
                value as nat,
                width as nat,
            ),
        decreases width - i,
    {
        let ghost sofar = out@;
        let ghost tail = le_bytes((rest / 256) as nat, (width - i - 1) as nat);
        let byte = (rest % 256) as u8;
        out.push(byte);
        assert(out@ + tail =~= sofar + (seq![byte] + tail));
        rest = rest / 256;
        i = i + 1;
    }
    assert(out@ + le_bytes(rest as nat, 0) =~= out@);
}

/// The number that the `width` bytes from `at` on spell, least significant
/// first.
fn get_le(bytes: &[u8], at: usize, width: usize) -> (value: u64)
    requires
        width <= 8,
        at + width <= bytes@.len(),
    ensures
        value == le_value(bytes@.subrange(at as int, at + width)),
{
    let mut acc: u64 = 0;
    let mut i: usize = width;
    assert(bytes@.len() == bytes.len());
    while i > 0
        invariant
            i <= width,
            width <= 8,
            at + width <= bytes@.len(),
            bytes@.len() <= usize::MAX,
            acc == le_value(bytes@.subrange(at + i, at + width)),
        decreases i,
    {
        i = i - 1;
        proof {
            let higher = bytes@.subrange(at + i + 1, at + width);
            let all = bytes@.subrange(at + i, at + width);
            lemma_le_value_bound(higher);
            lemma_radix_values();
            assert(all.drop_first() =~= higher);
            assert(all[0] == bytes@[at + i]);
        }
        acc = acc * 256 + bytes[at + i] as u64;
    }
    acc
}

/// Appends the four bytes of `value` to `out`.
pub(crate) fn put_u32(out: &mut Vec<u8>, value: u32)
    ensures
        final(out)@ == old(out)@ + le_bytes(value as nat, 4),
{
    put_le(out, value as u64, 4);
}

/// Appends the eight bytes of `value` to `out`.
pub(crate) fn put_u64(out: &mut Vec<u8>, value: u64)
    ensures
        final(out)@ == old(out)@ + le_bytes(value as nat, 8),
{
    put_le(out, value, 8);
}

/// The number that the four bytes from `at` on spell.
pub(crate) fn get_u32(bytes: &[u8], at: usize) -> (value: u32)
    requires
        at + 4 <= bytes@.len(),
    ensures
        value == le_value(bytes@.subrange(at as int, at + 4)),
{
    proof {
        lemma_le_value_bound(bytes@.subrange(at as int, at + 4));
        lemma_radix_values();
    }
    get_le(bytes, at, 4) as u32
}

/// The number that the eight bytes from `at` on spell.
pub(crate) fn get_u64(bytes: &[u8], at: usize) -> (value: u64)
    requires
        at + 8 <= bytes@.len(),
    ensures
        value == le_value(bytes@.subrange(at as int, at + 8)),
{
    get_le(bytes, at, 8)
}

} // verus!

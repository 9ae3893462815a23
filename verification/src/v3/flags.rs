//! The presence mask of the budget header.

use vstd::prelude::*;

verus! {

/// Mask bit of `compute_unit_limit`.
pub const COMPUTE_UNIT_LIMIT: u8 = 0b0000_0001;

/// Mask bit of `compute_unit_price`.
pub const COMPUTE_UNIT_PRICE: u8 = 0b0000_0010;

/// Mask bit of `loaded_accounts_data_limit`.
pub const LOADED_ACCOUNTS_DATA_LIMIT: u8 = 0b0000_0100;

/// Mask bit of `requested_heap_bytes_limit`.
pub const REQUESTED_HEAP_BYTES_LIMIT: u8 = 0b0000_1000;

/// The four bits that stand for a budget parameter.
pub const ALL: u8 = 0b0000_1111;

/// The bits of `bits` that stand for no budget parameter.
pub open spec fn reserved_bits(bits: u8) -> u8 {
    bits & !ALL
}

/// Whether every bit of `mask` is set in `bits`.
pub open spec fn has_bits(bits: u8, mask: u8) -> bool {
    bits & mask == mask
}

/// How many of the four parameter bits are set in `bits`.
pub open spec fn count_set(bits: u8) -> nat {
    let limit: nat = if has_bits(bits, COMPUTE_UNIT_LIMIT) { 1 } else { 0 };
    let price: nat = if has_bits(bits, COMPUTE_UNIT_PRICE) { 1 } else { 0 };
    let loaded: nat = if has_bits(bits, LOADED_ACCOUNTS_DATA_LIMIT) { 1 } else { 0 };
    let heap: nat = if has_bits(bits, REQUESTED_HEAP_BYTES_LIMIT) { 1 } else { 0 };
    limit + price + loaded + heap
}

/// A presence mask: eight bits, of which the low four each stand for one
/// budget parameter and the high four are reserved.
///
/// A value may hold reserved bits, as a byte taken from the wire may; the
/// decoders reject such a byte, and [`ComputeBudgetFlags::from_bits`] does too.
#[derive(Debug, Clone, Copy, PartialEq, Eq, PartialOrd, Ord, Hash)]
pub struct ComputeBudgetFlags {
    bits: u8,
}

impl View for ComputeBudgetFlags {
    type V = u8;

    /// The mask as a byte.
    closed spec fn view(&self) -> u8 {
        self.bits
    }
}

impl ComputeBudgetFlags {
    /// The mask with no bit set.
    pub fn empty() -> (flags: ComputeBudgetFlags)
        ensures
            flags@ == 0,
    {
        ComputeBudgetFlags { bits: 0 }
    }

    /// The mask with the four parameter bits set.
    pub fn all() -> (flags: ComputeBudgetFlags)
        ensures
            flags@ == ALL,
    {
        ComputeBudgetFlags { bits: ALL }
    }

    /// The mask with exactly the bits of `bits`, reserved ones included.
    pub fn from_bits_retain(bits: u8) -> (flags: ComputeBudgetFlags)
        ensures
            flags@ == bits,
    {
        ComputeBudgetFlags { bits }
    }

    /// The mask with the bits of `bits`, unless a reserved bit is among them.
    pub fn from_bits(bits: u8) -> (flags: Option<ComputeBudgetFlags>)
        ensures
            flags is Some <==> reserved_bits(bits) == 0,
            flags matches Some(f) ==> f@ == bits,
    {
        if bits & !ALL == 0 {
            Some(ComputeBudgetFlags { bits })
        } else {
            None
        }
    }

    /// The mask as a byte.
    pub fn bits(&self) -> (bits: u8)
        ensures
            bits == self@,
    {
        self.bits
    }

    /// The reserved bits that are set; zero in a valid mask.
    pub fn reserved(&self) -> (bits: u8)
        ensures
            bits == reserved_bits(self@),
    {
        self.bits & !ALL
    }

    /// Whether no bit is set.
    pub fn is_empty(&self) -> (empty: bool)
        ensures
            empty == (self@ == 0),
    {
        self.bits == 0
    }

    /// Whether every bit of `mask` is set.
    pub fn contains(&self, mask: u8) -> (held: bool)
        ensures
            held == has_bits(self@, mask),
    {
        self.bits & mask == mask
    }

    /// Sets every bit of `mask`.
    pub fn insert(&mut self, mask: u8)
        ensures
            final(self)@ == old(self)@ | mask,
    {
        self.bits = self.bits | mask;
    }

    /// How many of the four parameter bits are set.
    pub fn count(&self) -> (n: usize)
        ensures
            n == count_set(self@),
            n <= 4,
    {
        let mut n: usize = 0;
        if self.contains(COMPUTE_UNIT_LIMIT) {
            n = n + 1;
        }
        if self.contains(COMPUTE_UNIT_PRICE) {
            n = n + 1;
        }
        if self.contains(LOADED_ACCOUNTS_DATA_LIMIT) {
            n = n + 1;
        }
        if self.contains(REQUESTED_HEAP_BYTES_LIMIT) {
            n = n + 1;
        }
        n
    }
}

/// A mask is its byte: two masks of one byte are equal.
pub proof fn lemma_flags_determined(a: ComputeBudgetFlags, b: ComputeBudgetFlags)
    requires
        a@ == b@,
    ensures
        a == b,
{
}

} // verus!

//! The four optional budget parameters, and the presence mask that goes with
//! each choice of them.

use vstd::prelude::*;
use crate::v3::flags::{
    has_bits, reserved_bits, COMPUTE_UNIT_LIMIT, COMPUTE_UNIT_PRICE, LOADED_ACCOUNTS_DATA_LIMIT,
    REQUESTED_HEAP_BYTES_LIMIT,
};

verus! {

/// The budget parameters of one envelope, in their canonical order.
///
/// Each is present or absent by itself. An absent parameter asks for the
/// default; a present zero asks for zero.
#[derive(Debug, Clone, Copy, PartialEq, Eq)]
pub struct BudgetParameters {
    /// Bound on the compute units that may be consumed.
    pub compute_unit_limit: Option<u32>,
    /// Price paid for each compute unit.
    pub compute_unit_price: Option<u64>,
    /// Bound on the account data, in bytes, that may be loaded.
    pub loaded_accounts_data_limit: Option<u32>,
    /// Size of the heap that is asked for, in bytes.
    pub requested_heap_bytes_limit: Option<u32>,
}

/// `mask` where `present` holds, else no bit.
pub open spec fn bit_if(present: bool, mask: u8) -> u8 {
    if present {
        mask
    } else {
        0
    }
}

impl BudgetParameters {
    /// The presence mask of these parameters: a parameter's bit is set exactly
    /// where the parameter is present, and no other bit is.
    pub open spec fn presence(self) -> u8 {
        bit_if(self.compute_unit_limit is Some, COMPUTE_UNIT_LIMIT) | bit_if(
            self.compute_unit_price is Some,
            COMPUTE_UNIT_PRICE,
        ) | bit_if(self.loaded_accounts_data_limit is Some, LOADED_ACCOUNTS_DATA_LIMIT) | bit_if(
            self.requested_heap_bytes_limit is Some,
            REQUESTED_HEAP_BYTES_LIMIT,
        )
    }

    /// Whether `bits` has a parameter's bit set exactly where the parameter is
    /// present, whatever its reserved bits are.
    pub open spec fn agrees_with(self, bits: u8) -> bool {
        &&& has_bits(bits, COMPUTE_UNIT_LIMIT) <==> self.compute_unit_limit is Some
        &&& has_bits(bits, COMPUTE_UNIT_PRICE) <==> self.compute_unit_price is Some
        &&& has_bits(bits, LOADED_ACCOUNTS_DATA_LIMIT) <==> self.loaded_accounts_data_limit is Some
        &&& has_bits(bits, REQUESTED_HEAP_BYTES_LIMIT) <==> self.requested_heap_bytes_limit is Some
    }
}

/// The mask made of four chosen bits holds each of them exactly where it was
/// chosen, and no reserved bit.
proof fn lemma_mask_of_choices(a: u8, b: u8, c: u8, d: u8)
    by (bit_vector)
    requires
        a == 0 || a == 1,
        b == 0 || b == 2,
        c == 0 || c == 4,
        d == 0 || d == 8,
    ensures
        ((a | b | c | d) & 1 == 1) <==> a == 1,
        ((a | b | c | d) & 2 == 2) <==> b == 2,
        ((a | b | c | d) & 4 == 4) <==> c == 4,
        ((a | b | c | d) & 8 == 8) <==> d == 8,
        (a | b | c | d) & !15u8 == 0,
{
}

/// A mask without reserved bits is made of its four parameter bits.
proof fn lemma_mask_from_bits(bits: u8, a: u8, b: u8, c: u8, d: u8)
    by (bit_vector)
    requires
        bits & !15u8 == 0,
        a == (if bits & 1 == 1 { 1u8 } else { 0u8 }),
        b == (if bits & 2 == 2 { 2u8 } else { 0u8 }),
        c == (if bits & 4 == 4 { 4u8 } else { 0u8 }),
        d == (if bits & 8 == 8 { 8u8 } else { 0u8 }),
    ensures
        a | b | c | d == bits,
{
}

/// The presence mask agrees with the parameters it was derived from and has
/// no reserved bit.
pub proof fn lemma_presence_agrees(p: BudgetParameters)
    ensures
        p.agrees_with(p.presence()),
        reserved_bits(p.presence()) == 0,
{
    lemma_mask_of_choices(
        bit_if(p.compute_unit_limit is Some, COMPUTE_UNIT_LIMIT),
        bit_if(p.compute_unit_price is Some, COMPUTE_UNIT_PRICE),
        bit_if(p.loaded_accounts_data_limit is Some, LOADED_ACCOUNTS_DATA_LIMIT),
        bit_if(p.requested_heap_bytes_limit is Some, REQUESTED_HEAP_BYTES_LIMIT),
    );
}

/// A mask without reserved bits that agrees with the parameters is their
/// presence mask: the parameters leave no choice of mask.
pub proof fn lemma_presence_unique(p: BudgetParameters, bits: u8)
    requires
        p.agrees_with(bits),
        reserved_bits(bits) == 0,
    ensures
        bits == p.presence(),
{
    lemma_mask_from_bits(
        bits,
        bit_if(p.compute_unit_limit is Some, COMPUTE_UNIT_LIMIT),
        bit_if(p.compute_unit_price is Some, COMPUTE_UNIT_PRICE),
        bit_if(p.loaded_accounts_data_limit is Some, LOADED_ACCOUNTS_DATA_LIMIT),
        bit_if(p.requested_heap_bytes_limit is Some, REQUESTED_HEAP_BYTES_LIMIT),
    );
}

} // verus!

//! The budget header: a presence mask together with the parameters it speaks of.

use vstd::prelude::*;
use crate::v3::flags::{
    lemma_flags_determined, reserved_bits, ComputeBudgetFlags, COMPUTE_UNIT_LIMIT,
    COMPUTE_UNIT_PRICE, LOADED_ACCOUNTS_DATA_LIMIT,
    REQUESTED_HEAP_BYTES_LIMIT,
};
use crate::v3::params::{lemma_presence_agrees, BudgetParameters};

verus! {

/// A presence mask and the budget parameters, kept in agreement.
///
/// The fields are private and [`ComputeBudgetHeader::new`] derives the mask
/// from the parameters, so that no header holds a bit without its value or a
/// value without its bit.
#[derive(Debug, Clone, Copy, PartialEq, Eq)]
pub struct ComputeBudgetHeader {
    flags: ComputeBudgetFlags,
    compute_unit_limit: Option<u32>,
    compute_unit_price: Option<u64>,
    loaded_accounts_data_limit: Option<u32>,
    requested_heap_bytes_limit: Option<u32>,
}

impl View for ComputeBudgetHeader {
    type V = BudgetParameters;

    /// The parameters that the header carries.
    closed spec fn view(&self) -> BudgetParameters {
        BudgetParameters {
            compute_unit_limit: self.compute_unit_limit,
            compute_unit_price: self.compute_unit_price,
            loaded_accounts_data_limit: self.loaded_accounts_data_limit,
            requested_heap_bytes_limit: self.requested_heap_bytes_limit,
        }
    }
}

/// Four bits set one after the other, each only where it is wanted, make the
/// mask that joins the wanted bits.
proof fn lemma_bits_set_in_turn(a: bool, b: bool, c: bool, d: bool, f1: u8, f2: u8, f3: u8, f4: u8)
    by (bit_vector)
    requires
        f1 == (if a { 0u8 | 1u8 } else { 0u8 }),
        f2 == (if b { f1 | 2u8 } else { f1 }),
        f3 == (if c { f2 | 4u8 } else { f2 }),
        f4 == (if d { f3 | 8u8 } else { f3 }),
    ensures
        f4 == (if a { 1u8 } else { 0u8 }) | (if b { 2u8 } else { 0u8 })
            | (if c { 4u8 } else { 0u8 }) | (if d { 8u8 } else { 0u8 }),
{
}

impl ComputeBudgetHeader {
    /// The presence mask that the header holds.
    pub closed spec fn spec_flags(&self) -> ComputeBudgetFlags {
        self.flags
    }

    /// The mask is the presence mask of the parameters.
    pub open spec fn wf(&self) -> bool {
        self.spec_flags()@ == self@.presence()
    }

    #[verifier::type_invariant]
    closed spec fn mask_agrees(&self) -> bool {
        self.wf()
    }

    /// The header that carries the four parameters as given, with the mask
    /// derived from which of them are present.
    pub fn new(
        compute_unit_limit: Option<u32>,
        compute_unit_price: Option<u64>,
        loaded_accounts_data_limit: Option<u32>,
        requested_heap_bytes_limit: Option<u32>,
    ) -> (header: ComputeBudgetHeader)
        ensures
            header@ == (BudgetParameters {
                compute_unit_limit,
                compute_unit_price,
                loaded_accounts_data_limit,
                requested_heap_bytes_limit,
            }),
            header.wf(),
            header@.agrees_with(header.spec_flags()@),
            reserved_bits(header.spec_flags()@) == 0,
    {
        let mut flags = ComputeBudgetFlags::empty();

        if compute_unit_limit.is_some() {
            flags.insert(COMPUTE_UNIT_LIMIT);
        }
        let ghost after_limit = flags@;
        if compute_unit_price.is_some() {
            flags.insert(COMPUTE_UNIT_PRICE);
        }
        let ghost after_price = flags@;
        if loaded_accounts_data_limit.is_some() {
            flags.insert(LOADED_ACCOUNTS_DATA_LIMIT);
        }
        let ghost after_loaded = flags@;
        if requested_heap_bytes_limit.is_some() {
            flags.insert(REQUESTED_HEAP_BYTES_LIMIT);
        }

        proof {
            lemma_bits_set_in_turn(
                compute_unit_limit is Some,
                compute_unit_price is Some,
                loaded_accounts_data_limit is Some,
                requested_heap_bytes_limit is Some,
                after_limit,
                after_price,
                after_loaded,
                flags@,
            );
            lemma_presence_agrees(
                BudgetParameters {
                    compute_unit_limit,
                    compute_unit_price,
                    loaded_accounts_data_limit,
                    requested_heap_bytes_limit,
                },
            );
        }

        ComputeBudgetHeader {
            flags,
            compute_unit_limit,
            compute_unit_price,
            loaded_accounts_data_limit,
            requested_heap_bytes_limit,
        }
    }

    /// The header that carries `parameters`, where `bits` is their presence
    /// mask: the mask is derived anew and held against `bits`, so that a mask
    /// read beside the values cannot stand where it disagrees with them.
    pub fn with_mask(bits: u8, parameters: BudgetParameters) -> (header: Option<
        ComputeBudgetHeader,
    >)
        ensures
            header is Some <==> bits == parameters.presence(),
            header matches Some(h) ==> h@ == parameters && h.wf(),
    {
        let header = ComputeBudgetHeader::new(
            parameters.compute_unit_limit,
            parameters.compute_unit_price,
            parameters.loaded_accounts_data_limit,
            parameters.requested_heap_bytes_limit,
        );
        if header.flags().bits() == bits {
            Some(header)
        } else {
            None
        }
    }

    /// The presence mask.
    pub fn flags(&self) -> (flags: ComputeBudgetFlags)
        ensures
            flags == self.spec_flags(),
            flags@ == self@.presence(),
    {
        proof {
            use_type_invariant(self);
        }
        self.flags
    }

    /// The four parameters.
    pub fn parameters(&self) -> (parameters: BudgetParameters)
        ensures
            parameters == self@,
    {
        BudgetParameters {
            compute_unit_limit: self.compute_unit_limit,
            compute_unit_price: self.compute_unit_price,
            loaded_accounts_data_limit: self.loaded_accounts_data_limit,
            requested_heap_bytes_limit: self.requested_heap_bytes_limit,
        }
    }

    /// The compute-unit limit, where one is set.
    pub fn compute_unit_limit(&self) -> (value: Option<u32>)
        ensures
            value == self@.compute_unit_limit,
    {
        self.compute_unit_limit
    }

    /// The compute-unit price, where one is set.
    pub fn compute_unit_price(&self) -> (value: Option<u64>)
        ensures
            value == self@.compute_unit_price,
    {
        self.compute_unit_price
    }

    /// The limit on loaded account data, where one is set.
    pub fn loaded_accounts_data_limit(&self) -> (value: Option<u32>)
        ensures
            value == self@.loaded_accounts_data_limit,
    {
        self.loaded_accounts_data_limit
    }

    /// The requested heap size, where one is set.
    pub fn requested_heap_bytes_limit(&self) -> (value: Option<u32>)
        ensures
            value == self@.requested_heap_bytes_limit,
    {
        self.requested_heap_bytes_limit
    }
}

/// Two headers in which the mask agrees with the parameters are equal as soon
/// as they carry the same parameters.
pub proof fn lemma_header_determined(a: ComputeBudgetHeader, b: ComputeBudgetHeader)
    requires
        a.wf(),
        b.wf(),
        a@ == b@,
    ensures
        a == b,
{
    lemma_flags_determined(a.flags, b.flags);
}

} // verus!

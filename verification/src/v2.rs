//! The second header design: all four budget parameters have fixed slots in
//! the header and take their full width whether they are used or not.

use vstd::prelude::*;
use solana_message::compiled_instruction::CompiledInstruction;
use solana_message::v0::MessageAddressTableLookup;
use solana_pubkey::Pubkey;

verus! {

/// An envelope whose header has slots for four budget parameters.
#[derive(Debug, PartialEq, Eq)]
pub struct Message {
    /// The header, with the budget slots and the account counts.
    pub header: MessageHeader,
    /// The account keys; instructions refer to them by index.
    pub account_keys: Vec<Pubkey>,
    /// The recent blockhash.
    pub recent_blockhash: solana_hash::Hash,
    /// The compiled instructions.
    pub instructions: Vec<CompiledInstruction>,
    /// The address table lookups.
    pub address_table_lookups: Vec<MessageAddressTableLookup>,
}

/// The account counts behind four fixed budget slots.
#[derive(Debug, Clone, Copy, PartialEq, Eq, Default)]
pub struct MessageHeader {
    /// Price paid for each compute unit.
    pub compute_unit_price: u64,
    /// Bound on the compute units that may be consumed.
    pub compute_unit_limit: u32,
    /// Bound on the account data, in bytes, that may be loaded.
    pub loaded_accounts_data_limit: u32,
    /// Size of the heap that is asked for, in bytes.
    pub requested_heap_bytes: u32,
    /// Number of signatures that the envelope needs.
    pub num_required_signatures: u8,
    /// Number of the signed accounts that are read-only.
    pub num_readonly_signed_accounts: u8,
    /// Number of the unsigned accounts that are read-only.
    pub num_readonly_unsigned_accounts: u8,
}

} // verus!

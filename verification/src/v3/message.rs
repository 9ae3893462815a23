//! The envelope of the third design: the budget header comes first, then the
//! parts that every envelope has.

use vstd::prelude::*;
use solana_message::compiled_instruction::CompiledInstruction;
use solana_message::v0::MessageAddressTableLookup;
use solana_pubkey::Pubkey;
use crate::v3::header::ComputeBudgetHeader;
use crate::v3::params::BudgetParameters;

verus! {

/// The three account counts that every envelope has.
#[derive(Debug, Clone, Copy, PartialEq, Eq, Default)]
pub struct MessageHeader {
    /// Number of signatures that the envelope needs.
    pub num_required_signatures: u8,
    /// Number of the signed accounts that are read-only.
    pub num_readonly_signed_accounts: u8,
    /// Number of the unsigned accounts that are read-only.
    pub num_readonly_unsigned_accounts: u8,
}

/// An envelope that starts with a budget header. Every envelope has one,
/// though it may carry no parameter.
#[derive(Debug, PartialEq, Eq)]
pub struct Message {
    /// The budget header.
    pub compute_budget_header: ComputeBudgetHeader,
    /// The three account counts.
    pub header: MessageHeader,
    /// The account keys; instructions refer to them by index.
    pub account_keys: Vec<Pubkey>,
    /// The recent blockhash.
    pub recent_blockhash: solana_hash::Hash,
    /// The compiled instructions.
    pub instructions: Vec<CompiledInstruction>,
    /// The address table lookups.
    pub address_table_lookups: Vec<MessageAddressTableLookup>,
}

impl Message {
    /// Puts an envelope together from the four budget parameters and the
    /// parts that are already made. The parts are taken as they are: nothing
    /// is checked between them.
    pub fn new(
        compute_unit_limit: Option<u32>,
        compute_unit_price: Option<u64>,
        loaded_accounts_data_limit: Option<u32>,
        requested_heap_bytes_limit: Option<u32>,
        header: MessageHeader,
        account_keys: Vec<Pubkey>,
        recent_blockhash: solana_hash::Hash,
        instructions: Vec<CompiledInstruction>,
        address_table_lookups: Vec<MessageAddressTableLookup>,
    ) -> (message: Message)
        ensures
            message.compute_budget_header@ == (BudgetParameters {
                compute_unit_limit,
                compute_unit_price,
                loaded_accounts_data_limit,
                requested_heap_bytes_limit,
            }),
            message.compute_budget_header.wf(),
            message.header == header,
            message.account_keys == account_keys,
            message.recent_blockhash == recent_blockhash,
            message.instructions == instructions,
            message.address_table_lookups == address_table_lookups,
    {
        Message {
            compute_budget_header: ComputeBudgetHeader::new(
                compute_unit_limit,
                compute_unit_price,
                loaded_accounts_data_limit,
                requested_heap_bytes_limit,
            ),
            header,
            account_keys,
            recent_blockhash,
            instructions,
            address_table_lookups,
        }
    }
}

/// The larger of `a` and `b`.
pub fn const_max(a: usize, b: usize) -> (max: usize)
    ensures
        max == if a < b { b } else { a },
        max >= a,
        max >= b,
{
    if a < b {
        b
    } else {
        a
    }
}

} // verus!

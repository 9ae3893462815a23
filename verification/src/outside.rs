//! The parts of an envelope that other crates define. They are carried
//! through as they are: nothing here looks inside them.

use vstd::prelude::*;

verus! {

/// `solana_pubkey::Pubkey`, an account's public key: opaque here.
#[verifier::external_type_specification]
#[verifier::external_body]
pub struct ExPubkey(solana_pubkey::Pubkey);

/// `solana_hash::Hash`, a blockhash: opaque here.
#[verifier::external_type_specification]
#[verifier::external_body]
pub struct ExHash(solana_hash::Hash);

/// `solana_message::compiled_instruction::CompiledInstruction`: opaque here.
#[verifier::external_type_specification]
#[verifier::external_body]
pub struct ExCompiledInstruction(solana_message::compiled_instruction::CompiledInstruction);

/// `solana_message::v0::MessageAddressTableLookup`: opaque here.
#[verifier::external_type_specification]
#[verifier::external_body]
pub struct ExMessageAddressTableLookup(solana_message::v0::MessageAddressTableLookup);

} // verus!

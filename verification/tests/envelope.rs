use solana_message::compiled_instruction::CompiledInstruction;
use solana_message::v0::MessageAddressTableLookup;
use solana_pubkey::Pubkey;
use solana_short_vec::ShortVec;
use v1tx::v3::compact;
use v1tx::v3::ComputeBudgetHeader;

/// The bytes that follow a header in an envelope, as bincode writes them.
fn parts_size(
    account_keys: &[Pubkey],
    recent_blockhash: &solana_hash::Hash,
    instructions: &[CompiledInstruction],
    address_table_lookups: &[MessageAddressTableLookup],
) -> usize {
    bincode::serialize(&ShortVec(account_keys.to_vec())).unwrap().len()
        + bincode::serialize(recent_blockhash).unwrap().len()
        + bincode::serialize(&ShortVec(instructions.to_vec())).unwrap().len()
        + bincode::serialize(&ShortVec(address_table_lookups.to_vec())).unwrap().len()
}

fn v1_size(message: &v1tx::v1::Message) -> usize {
    let header = &message.header;
    bincode::serialize(&(
        header.compute_unit_price,
        header.compute_unit_limit,
        header.num_required_signatures,
        header.num_readonly_signed_accounts,
        header.num_readonly_unsigned_accounts,
    ))
    .unwrap()
    .len()
        + parts_size(
            &message.account_keys,
            &message.recent_blockhash,
            &message.instructions,
            &message.address_table_lookups,
        )
}

fn v2_size(message: &v1tx::v2::Message) -> usize {
    let header = &message.header;
    bincode::serialize(&(
        header.compute_unit_price,
        header.compute_unit_limit,
        header.loaded_accounts_data_limit,
        header.requested_heap_bytes,
        header.num_required_signatures,
        header.num_readonly_signed_accounts,
        header.num_readonly_unsigned_accounts,
    ))
    .unwrap()
    .len()
        + parts_size(
            &message.account_keys,
            &message.recent_blockhash,
            &message.instructions,
            &message.address_table_lookups,
        )
}

fn v3_size(message: &v1tx::v3::Message) -> usize {
    let header = &message.header;
    compact::serialized_size(&message.compute_budget_header)
        + bincode::serialize(&(
            header.num_required_signatures,
            header.num_readonly_signed_accounts,
            header.num_readonly_unsigned_accounts,
        ))
        .unwrap()
        .len()
        + parts_size(
            &message.account_keys,
            &message.recent_blockhash,
            &message.instructions,
            &message.address_table_lookups,
        )
}

fn v1_message(price: u64, limit: u32, payer: Pubkey, blockhash: solana_hash::Hash) -> v1tx::v1::Message {
    v1tx::v1::Message {
        header: v1tx::v1::MessageHeader {
            compute_unit_price: price,
            compute_unit_limit: limit,
            num_required_signatures: 1,
            num_readonly_signed_accounts: 0,
            num_readonly_unsigned_accounts: 0,
        },
        account_keys: vec![payer],
        recent_blockhash: blockhash,
        instructions: vec![],
        address_table_lookups: vec![],
    }
}

fn v2_message(
    price: u64,
    limit: u32,
    loaded: u32,
    heap: u32,
    payer: Pubkey,
    blockhash: solana_hash::Hash,
) -> v1tx::v2::Message {
    v1tx::v2::Message {
        header: v1tx::v2::MessageHeader {
            compute_unit_price: price,
            compute_unit_limit: limit,
            loaded_accounts_data_limit: loaded,
            requested_heap_bytes: heap,
            num_required_signatures: 1,
            num_readonly_signed_accounts: 0,
            num_readonly_unsigned_accounts: 0,
        },
        account_keys: vec![payer],
        recent_blockhash: blockhash,
        instructions: vec![],
        address_table_lookups: vec![],
    }
}

fn v3_message(
    header: ComputeBudgetHeader,
    payer: Pubkey,
    blockhash: solana_hash::Hash,
) -> v1tx::v3::Message {
    v1tx::v3::Message {
        compute_budget_header: header,
        header: v1tx::v3::MessageHeader {
            num_required_signatures: 1,
            num_readonly_signed_accounts: 0,
            num_readonly_unsigned_accounts: 0,
        },
        account_keys: vec![payer],
        recent_blockhash: blockhash,
        instructions: vec![],
        address_table_lookups: vec![],
    }
}

#[test]
fn sizes_of_the_three_designs() {
    let blockhash = solana_hash::Hash::new_unique();
    let payer = Pubkey::new_unique();

    // One account key, no instruction, no lookup: 1 + 32 + 32 + 1 + 1.
    let parts = 67;

    let v1_noop = v1_size(&v1_message(0, 0, payer, blockhash));
    let v2_noop = v2_size(&v2_message(0, 0, 0, 0, payer, blockhash));
    let v3_noop = v3_size(&v3_message(
        ComputeBudgetHeader::new(None, None, None, None),
        payer,
        blockhash,
    ));
    assert_eq!(v1_noop, 15 + parts);
    assert_eq!(v2_noop, 23 + parts);
    assert_eq!(v3_noop, 1 + 3 + parts);
    assert!(v3_noop <= v1_noop && v1_noop <= v2_noop);

    let v1_limit_price = v1_size(&v1_message(12345, 12345, payer, blockhash));
    let v2_limit_price = v2_size(&v2_message(12345, 12345, 0, 0, payer, blockhash));
    let v3_limit_price = v3_size(&v3_message(
        ComputeBudgetHeader::new(Some(12345), Some(12345), None, None),
        payer,
        blockhash,
    ));
    assert_eq!(v1_limit_price, 15 + parts);
    assert_eq!(v2_limit_price, 23 + parts);
    assert_eq!(v3_limit_price, 13 + 3 + parts);
    assert!(v1_limit_price < v3_limit_price && v3_limit_price < v2_limit_price);

    // The first design has no slot for the other two parameters: they come as
    // two instructions to a budget program, whose key joins the account keys.
    let mut v1_full = v1_message(12345, 12345, payer, blockhash);
    v1_full.header.num_readonly_unsigned_accounts = 1;
    v1_full.account_keys.push(Pubkey::new_unique());
    v1_full.instructions = vec![
        CompiledInstruction::new_from_raw_parts(1, vec![4, 0x39, 0x30, 0, 0], vec![]),
        CompiledInstruction::new_from_raw_parts(1, vec![1, 0x39, 0x30, 0, 0], vec![]),
    ];
    let v1_full = v1_size(&v1_full);
    let v2_full = v2_size(&v2_message(12345, 12345, 12345, 12345, payer, blockhash));
    let v3_full = v3_size(&v3_message(
        ComputeBudgetHeader::new(Some(12345), Some(12345), Some(12345), Some(12345)),
        payer,
        blockhash,
    ));
    assert_eq!(v1_full, 15 + parts + 32 + 2 * 8);
    assert_eq!(v2_full, 23 + parts);
    assert_eq!(v3_full, 21 + 3 + parts);
    assert!(v2_full < v3_full && v3_full < v1_full);
}

#[test]
fn envelope_is_put_together_from_its_parts() {
    let key = Pubkey::new_unique();
    let blockhash = solana_hash::Hash::new_unique();
    let instruction = CompiledInstruction::new_from_raw_parts(0, vec![9, 9], vec![0]);
    let lookup = MessageAddressTableLookup {
        account_key: Pubkey::new_unique(),
        writable_indexes: vec![1],
        readonly_indexes: vec![],
    };
    let header = v1tx::v3::MessageHeader {
        num_required_signatures: 1,
        num_readonly_signed_accounts: 2,
        num_readonly_unsigned_accounts: 3,
    };
    let message = v1tx::v3::Message::new(
        Some(5),
        None,
        None,
        Some(8),
        header,
        vec![key],
        blockhash,
        vec![instruction.clone()],
        vec![lookup.clone()],
    );
    assert_eq!(
        message,
        v1tx::v3::Message {
            compute_budget_header: ComputeBudgetHeader::new(Some(5), None, None, Some(8)),
            header,
            account_keys: vec![key],
            recent_blockhash: blockhash,
            instructions: vec![instruction],
            address_table_lookups: vec![lookup],
        }
    );
    assert_eq!(message.compute_budget_header.flags().bits(), 0b0000_1001);
}

#[test]
fn envelope_size_is_a_multiple_of_its_alignment_of_eight() {
    assert_eq!(std::mem::size_of::<v1tx::v3::Message>() % 8, 0);
    assert_eq!(std::mem::align_of::<v1tx::v3::Message>(), 8);
}

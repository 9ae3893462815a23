use solana_message::compiled_instruction::CompiledInstruction;
use solana_message::v0::MessageAddressTableLookup;
use solana_pubkey::Pubkey;
use solana_short_vec::ShortVec;
use v1tx::v3::compact;
use v1tx::v3::keyed;
use v1tx::v3::{ComputeBudgetHeader, Message, MessageHeader};

/// The bytes that bincode writes for the mask and the present values, one
/// after the other.
fn bincode_header_bytes(header: &ComputeBudgetHeader) -> Vec<u8> {
    let mut bytes = bincode::serialize(&header.flags().bits()).unwrap();
    if let Some(limit) = header.compute_unit_limit() {
        bytes.extend(bincode::serialize(&limit).unwrap());
    }
    if let Some(price) = header.compute_unit_price() {
        bytes.extend(bincode::serialize(&price).unwrap());
    }
    if let Some(loaded) = header.loaded_accounts_data_limit() {
        bytes.extend(bincode::serialize(&loaded).unwrap());
    }
    if let Some(heap) = header.requested_heap_bytes_limit() {
        bytes.extend(bincode::serialize(&heap).unwrap());
    }
    bytes
}

/// The envelope on the wire: the compact header, then the other parts as
/// bincode writes them, the lists with a short length in front.
fn envelope_bytes(message: &Message) -> Vec<u8> {
    let mut bytes = compact::serialize(&message.compute_budget_header);
    bytes.extend(
        bincode::serialize(&(
            message.header.num_required_signatures,
            message.header.num_readonly_signed_accounts,
            message.header.num_readonly_unsigned_accounts,
        ))
        .unwrap(),
    );
    bytes.extend(bincode::serialize(&ShortVec(message.account_keys.clone())).unwrap());
    bytes.extend(bincode::serialize(&message.recent_blockhash).unwrap());
    bytes.extend(bincode::serialize(&ShortVec(message.instructions.clone())).unwrap());
    bytes.extend(bincode::serialize(&ShortVec(message.address_table_lookups.clone())).unwrap());
    bytes
}

/// Reads an envelope back, and wants every byte used.
fn envelope_from_bytes(bytes: &[u8]) -> Message {
    let (compute_budget_header, used) = compact::deserialize(bytes).unwrap();
    let mut rest: &[u8] = &bytes[used..];
    let counts: (u8, u8, u8) = bincode::deserialize_from(&mut rest).unwrap();
    let account_keys: ShortVec<Pubkey> = bincode::deserialize_from(&mut rest).unwrap();
    let recent_blockhash: solana_hash::Hash = bincode::deserialize_from(&mut rest).unwrap();
    let instructions: ShortVec<CompiledInstruction> =
        bincode::deserialize_from(&mut rest).unwrap();
    let address_table_lookups: ShortVec<MessageAddressTableLookup> =
        bincode::deserialize_from(&mut rest).unwrap();
    assert!(rest.is_empty());
    Message {
        compute_budget_header,
        header: MessageHeader {
            num_required_signatures: counts.0,
            num_readonly_signed_accounts: counts.1,
            num_readonly_unsigned_accounts: counts.2,
        },
        account_keys: account_keys.0,
        recent_blockhash,
        instructions: instructions.0,
        address_table_lookups: address_table_lookups.0,
    }
}

#[test]
fn test_roundtrip_header_all_bincode() {
    let cu_prices = [Some(12), None];
    let cu_limits = [Some(34), None];
    let loaded_data_limits = [Some(56), None];
    let heap_limits = [Some(78), None];

    for cu_price in cu_prices {
        for cu_limit in cu_limits {
            for loaded_data_limit in loaded_data_limits {
                for heap_limit in heap_limits {
                    let header =
                        ComputeBudgetHeader::new(cu_limit, cu_price, loaded_data_limit, heap_limit);
                    let bytes = compact::serialize(&header);
                    assert_eq!(bytes, bincode_header_bytes(&header));
                    let (result, used) = compact::deserialize(&bytes).unwrap();
                    assert_eq!(used, bytes.len());
                    assert_eq!(header, result)
                }
            }
        }
    }
}

#[test]
fn test_roundtrip_message_all_bincode() {
    let cu_prices = [Some(12), None];
    let cu_limits = [Some(34), None];
    let loaded_data_limits = [Some(56), None];
    let heap_limits = [Some(78), None];

    for cu_price in cu_prices {
        for cu_limit in cu_limits {
            for loaded_data_limit in loaded_data_limits {
                for heap_limit in heap_limits {
                    let message = Message {
                        compute_budget_header: ComputeBudgetHeader::new(
                            cu_limit,
                            cu_price,
                            loaded_data_limit,
                            heap_limit,
                        ),
                        header: MessageHeader {
                            num_required_signatures: 1,
                            num_readonly_signed_accounts: 2,
                            num_readonly_unsigned_accounts: 3,
                        },
                        account_keys: vec![],
                        recent_blockhash: solana_hash::Hash::new_unique(),
                        instructions: vec![],
                        address_table_lookups: vec![],
                    };
                    let result = envelope_from_bytes(&envelope_bytes(&message));
                    assert_eq!(message, result)
                }
            }
        }
    }
}

#[test]
fn roundtrip_header_all_keyed() {
    let cu_prices = [Some(12), None];
    let cu_limits = [Some(34), None];
    let loaded_data_limits = [Some(56), None];
    let heap_limits = [Some(78), None];

    for cu_price in cu_prices {
        for cu_limit in cu_limits {
            for loaded_data_limit in loaded_data_limits {
                for heap_limit in heap_limits {
                    let header =
                        ComputeBudgetHeader::new(cu_limit, cu_price, loaded_data_limit, heap_limit);
                    let record = keyed::serialize(&header);
                    assert_eq!(record.len(), 1 + header.flags().count());
                    let result = keyed::deserialize(&record).unwrap();
                    assert_eq!(header, result)
                }
            }
        }
    }
}

#[test]
fn roundtrip_message_with_parts() {
    let message = Message::new(
        Some(200_000),
        Some(u64::MAX),
        None,
        Some(0),
        MessageHeader {
            num_required_signatures: 1,
            num_readonly_signed_accounts: 0,
            num_readonly_unsigned_accounts: 1,
        },
        vec![Pubkey::new_unique(), Pubkey::new_unique()],
        solana_hash::Hash::new_unique(),
        vec![CompiledInstruction::new_from_raw_parts(1, vec![1, 2, 3], vec![0])],
        vec![MessageAddressTableLookup {
            account_key: Pubkey::new_unique(),
            writable_indexes: vec![4],
            readonly_indexes: vec![5, 6],
        }],
    );
    let bytes = envelope_bytes(&message);
    assert_eq!(bytes[0], 0b0000_1011);
    assert_eq!(envelope_from_bytes(&bytes), message);
}

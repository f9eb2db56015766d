use solsign::error::{DecodeError, DecodeFault, EncodeError};
use solsign::model::{
    Address, Instruction, Pubkey, PubkeyWithSignature, Sha256Digest, Signature, Transaction,
};

fn id(tag: u8) -> [u8; 32] {
    let mut a = [0u8; 32];
    a[0] = tag;
    a[31] = tag;
    a
}

fn sig(tag: u8) -> [u8; 64] {
    let mut s = [tag; 64];
    s[63] = 0x0f;
    s
}

/// Bytes of a transaction with the given signatures, header counts,
/// addresses and instruction section.
fn wire(
    signatures: &[[u8; 64]],
    header: [u8; 3],
    addresses: &[[u8; 32]],
    blockhash: [u8; 32],
    instructions: &[u8],
) -> Vec<u8> {
    let mut w = vec![signatures.len() as u8];
    for s in signatures {
        w.extend_from_slice(s);
    }
    w.extend_from_slice(&header);
    w.push(addresses.len() as u8);
    for a in addresses {
        w.extend_from_slice(a);
    }
    w.extend_from_slice(&blockhash);
    w.extend_from_slice(instructions);
    w
}

fn slot(tag: u8, signature: Option<[u8; 64]>) -> PubkeyWithSignature {
    PubkeyWithSignature {
        pubkey: Pubkey(id(tag)),
        signature: signature.map(|s| Signature::from_bytes(&s).unwrap()),
    }
}

#[test]
fn decode_minimal_transaction() {
    let bytes = wire(&[[0u8; 64]], [1, 0, 0], &[id(1)], [7u8; 32], &[0]);
    let tx = Transaction::decode(&bytes).unwrap();
    assert_eq!(
        tx,
        Transaction {
            signed_read_write_addresses: vec![slot(1, None)],
            signed_read_only_addresses: vec![],
            unsigned_read_write_addresses: vec![],
            unsigned_read_only_addresses: vec![],
            recent_blockhash: Some(Sha256Digest([7u8; 32])),
            instructions: vec![],
        }
    );
}

#[test]
fn decode_fills_all_partitions_in_order() {
    let ins = [4u8, 2, 0, 3, 3, 0xaa, 0xbb, 0xcc];
    let mut section = vec![1u8];
    section.extend_from_slice(&ins);
    let bytes = wire(
        &[sig(1), [0u8; 64]],
        [3, 1, 1],
        &[id(1), id(2), id(3), id(4), id(5)],
        [0u8; 32],
        &section,
    );
    let tx = Transaction::decode(&bytes).unwrap();
    assert_eq!(tx.signed_read_write_addresses, vec![slot(1, Some(sig(1))), slot(2, None)]);
    assert_eq!(tx.signed_read_only_addresses, vec![slot(3, None)]);
    assert_eq!(tx.unsigned_read_write_addresses, vec![Address(id(4))]);
    assert_eq!(tx.unsigned_read_only_addresses, vec![Address(id(5))]);
    assert_eq!(tx.recent_blockhash, None);
    assert_eq!(
        tx.instructions,
        vec![Instruction {
            program_address: Address(id(5)),
            addresses: vec![(Address(id(1)), true, true), (Address(id(4)), false, true)],
            data: vec![0xaa, 0xbb, 0xcc],
        }]
    );
}

#[test]
fn decode_accepts_fewer_signatures_than_slots() {
    let bytes = wire(&[sig(9)], [2, 1, 0], &[id(1), id(2)], [1u8; 32], &[0]);
    let tx = Transaction::decode(&bytes).unwrap();
    assert_eq!(tx.signed_read_write_addresses, vec![slot(1, Some(sig(9)))]);
    assert_eq!(tx.signed_read_only_addresses, vec![slot(2, None)]);
}

#[test]
fn decode_ignores_bytes_behind_the_transaction() {
    let mut bytes = wire(&[[0u8; 64]], [1, 0, 0], &[id(1)], [7u8; 32], &[0]);
    let tx = Transaction::decode(&bytes).unwrap();
    bytes.extend_from_slice(&[1, 2, 3]);
    assert_eq!(Transaction::decode(&bytes), Ok(tx));
}

#[test]
fn decode_rejects_more_signatures_than_signed_addresses() {
    let bytes = wire(&[[0u8; 64], [0u8; 64]], [1, 0, 0], &[id(1)], [7u8; 32], &[0]);
    assert_eq!(
        Transaction::decode(&bytes),
        Err(DecodeError::Fatal(DecodeFault::TooManySignaturesSupplied { signatures: 2, signed: 1 }))
    );
}

#[test]
fn decode_rejects_zero_signed_writable_addresses() {
    let bytes = wire(&[[0u8; 64]], [1, 1, 0], &[id(1)], [7u8; 32], &[0]);
    assert_eq!(Transaction::decode(&bytes), Err(DecodeError::Fatal(DecodeFault::NoFeePayer)));
    let bytes = wire(&[], [0, 0, 0], &[], [7u8; 32], &[0]);
    assert_eq!(Transaction::decode(&bytes), Err(DecodeError::Fatal(DecodeFault::NoFeePayer)));
}

#[test]
fn decode_rejects_too_many_signatures() {
    let mut bytes = vec![19u8];
    bytes.extend_from_slice(&[0u8; 19 * 64]);
    assert_eq!(
        Transaction::decode(&bytes),
        Err(DecodeError::Fatal(DecodeFault::TooManySignatures { count: 19 }))
    );
    assert_eq!(
        Transaction::decode(&[19u8]),
        Err(DecodeError::Fatal(DecodeFault::TooManySignatures { count: 19 }))
    );
}

#[test]
fn decode_accepts_eighteen_signatures() {
    let sigs = [[0u8; 64]; 18];
    let ids: Vec<[u8; 32]> = (1..=18).map(id).collect();
    let bytes = wire(&sigs, [18, 0, 0], &ids, [7u8; 32], &[0]);
    let tx = Transaction::decode(&bytes).unwrap();
    assert_eq!(tx.signed_read_write_addresses.len(), 18);
}

#[test]
fn decode_rejects_malformed_signature() {
    let mut bad = [1u8; 64];
    bad[63] = 0x20;
    let bytes = wire(&[bad], [1, 0, 0], &[id(1)], [7u8; 32], &[0]);
    assert_eq!(
        Transaction::decode(&bytes),
        Err(DecodeError::Fatal(DecodeFault::MalformedSignature))
    );
    let mut good = [1u8; 64];
    good[63] = 0x1f;
    let bytes = wire(&[good], [1, 0, 0], &[id(1)], [7u8; 32], &[0]);
    assert_eq!(
        Transaction::decode(&bytes).unwrap().signed_read_write_addresses[0].signature,
        Some(Signature::from_bytes(&good).unwrap())
    );
}

#[test]
fn decode_rejects_too_many_signed_addresses() {
    let bytes = wire(&[[0u8; 64]], [38, 0, 0], &[id(1)], [7u8; 32], &[0]);
    assert_eq!(
        Transaction::decode(&bytes),
        Err(DecodeError::Fatal(DecodeFault::TooManySignedAddresses { signed: 38 }))
    );
}

#[test]
fn decode_rejects_too_many_signed_read_only() {
    let bytes = wire(&[[0u8; 64]], [2, 3, 0], &[id(1), id(2)], [7u8; 32], &[0]);
    assert_eq!(
        Transaction::decode(&bytes),
        Err(DecodeError::Fatal(DecodeFault::TooManySignedReadOnly { signed: 2, read_only: 3 }))
    );
}

#[test]
fn decode_rejects_too_few_addresses() {
    let bytes = wire(&[[0u8; 64]], [2, 0, 2], &[id(1), id(2), id(3)], [7u8; 32], &[0]);
    assert_eq!(
        Transaction::decode(&bytes),
        Err(DecodeError::Fatal(DecodeFault::TooFewAddresses { supplied: 3, required: 4 }))
    );
}

#[test]
fn decode_truncated_mid_address_is_incomplete() {
    let bytes = wire(&[[0u8; 64]], [1, 0, 1], &[id(1), id(2)], [7u8; 32], &[0]);
    let cut = 1 + 64 + 3 + 1 + 32 + 10;
    assert_eq!(Transaction::decode(&bytes[..cut]), Err(DecodeError::Incomplete));
}

#[test]
fn decode_every_proper_prefix_is_incomplete() {
    let ins = [1u8, 1, 0, 2, 5, 6];
    let mut section = vec![1u8];
    section.extend_from_slice(&ins);
    let bytes = wire(&[sig(3)], [1, 0, 1], &[id(1), id(2)], [7u8; 32], &section);
    assert!(Transaction::decode(&bytes).is_ok());
    for cut in 0..bytes.len() {
        assert_eq!(Transaction::decode(&bytes[..cut]), Err(DecodeError::Incomplete));
    }
}

#[test]
fn decode_out_of_range_program_index_is_fatal() {
    let bytes = wire(&[[0u8; 64]], [1, 0, 0], &[id(1)], [7u8; 32], &[2, 0, 0, 0, 1, 0, 0]);
    assert_eq!(
        Transaction::decode(&bytes),
        Err(DecodeError::Fatal(DecodeFault::InvalidProgramIndex { index: 1, instruction: 1 }))
    );
}

#[test]
fn decode_out_of_range_address_index_is_fatal() {
    let bytes = wire(
        &[[0u8; 64]],
        [1, 0, 1],
        &[id(1), id(2)],
        [7u8; 32],
        &[3, 1, 0, 0, 1, 1, 0, 0, 0, 2, 1, 2, 0],
    );
    assert_eq!(
        Transaction::decode(&bytes),
        Err(DecodeError::Fatal(DecodeFault::InvalidAddressIndex { index: 2, instruction: 2 }))
    );
}

#[test]
fn decode_fatal_comes_before_incomplete_when_met_first() {
    let bytes = wire(&[[0u8; 64]], [1, 0, 0], &[id(1)], [7u8; 32], &[1, 0, 3, 0, 9]);
    assert_eq!(
        Transaction::decode(&bytes),
        Err(DecodeError::Fatal(DecodeFault::InvalidAddressIndex { index: 9, instruction: 0 }))
    );
    let bytes = wire(&[[0u8; 64]], [1, 0, 0], &[id(1)], [7u8; 32], &[1, 0, 3, 0]);
    assert_eq!(Transaction::decode(&bytes), Err(DecodeError::Incomplete));
}

#[test]
fn decode_rejects_too_many_instruction_addresses() {
    // 1191 = 0xa7 0x09
    let bytes = wire(&[[0u8; 64]], [1, 0, 0], &[id(1)], [7u8; 32], &[1, 0, 0xa7, 0x09]);
    assert_eq!(
        Transaction::decode(&bytes),
        Err(DecodeError::Fatal(DecodeFault::TooManyInstructionAddresses {
            instruction: 0,
            count: 1191
        }))
    );
}

#[test]
fn decode_rejects_too_many_data_bytes() {
    // 1193 = 0xa9 0x09
    let bytes = wire(&[[0u8; 64]], [1, 0, 0], &[id(1)], [7u8; 32], &[1, 0, 0, 0xa9, 0x09]);
    assert_eq!(
        Transaction::decode(&bytes),
        Err(DecodeError::Fatal(DecodeFault::TooManyInstructionData { instruction: 0, count: 1193 }))
    );
}

#[test]
fn decode_does_not_bound_the_instruction_count() {
    let mut section = vec![0x8e, 0x03]; // 398 instructions
    for _ in 0..398 {
        section.extend_from_slice(&[0, 0, 0]);
    }
    let bytes = wire(&[[0u8; 64]], [1, 0, 0], &[id(1)], [7u8; 32], &section);
    assert_eq!(Transaction::decode(&bytes).unwrap().instructions.len(), 398);
}

#[test]
fn instruction_index_zero_resolves_to_first_signed_writable() {
    let bytes = wire(
        &[[0u8; 64], [0u8; 64]],
        [2, 0, 1],
        &[id(1), id(2), id(3)],
        [7u8; 32],
        &[1, 0, 1, 2, 0],
    );
    let tx = Transaction::decode(&bytes).unwrap();
    assert_eq!(tx.find_address_at_index(0), Some((Address(id(1)), true, true)));
    assert_eq!(tx.instructions[0].program_address, Address(id(1)));
    assert_eq!(tx.instructions[0].addresses, vec![(Address(id(3)), false, false)]);
}

fn four_partitions() -> Transaction {
    Transaction {
        signed_read_write_addresses: vec![slot(1, None), slot(2, None)],
        signed_read_only_addresses: vec![slot(3, None)],
        unsigned_read_write_addresses: vec![Address(id(4)), Address(id(5))],
        unsigned_read_only_addresses: vec![Address(id(6))],
        recent_blockhash: None,
        instructions: vec![],
    }
}

#[test]
fn find_address_at_index_gives_flags_of_the_partition() {
    let tx = four_partitions();
    assert_eq!(tx.find_address_at_index(0), Some((Address(id(1)), true, true)));
    assert_eq!(tx.find_address_at_index(1), Some((Address(id(2)), true, true)));
    assert_eq!(tx.find_address_at_index(2), Some((Address(id(3)), true, false)));
    assert_eq!(tx.find_address_at_index(3), Some((Address(id(4)), false, true)));
    assert_eq!(tx.find_address_at_index(4), Some((Address(id(5)), false, true)));
    assert_eq!(tx.find_address_at_index(5), Some((Address(id(6)), false, false)));
    assert_eq!(tx.find_address_at_index(6), None);
    assert_eq!(tx.find_address_at_index(255), None);
}

#[test]
fn find_address_index_gives_cumulative_position() {
    let tx = four_partitions();
    for tag in 1..=6u8 {
        assert_eq!(tx.find_address_index(&Address(id(tag))), Some(tag - 1));
    }
    assert_eq!(tx.find_address_index(&Address(id(7))), None);
}

#[test]
fn find_address_index_gives_first_match() {
    let mut tx = four_partitions();
    tx.unsigned_read_only_addresses.push(Address(id(2)));
    assert_eq!(tx.find_address_index(&Address(id(2))), Some(1));
}

#[test]
fn find_address_index_is_cut_to_eight_bits() {
    let mut tx = four_partitions();
    for _ in 0..254 {
        tx.unsigned_read_only_addresses.push(Address(id(6)));
    }
    tx.unsigned_read_only_addresses.push(Address(id(9)));
    assert_eq!(tx.find_address_index(&Address(id(9))), Some(4));
}

#[test]
fn message_exact_bytes() {
    let mut tx = four_partitions();
    tx.recent_blockhash = Some(Sha256Digest([0xee; 32]));
    tx.instructions.push(Instruction {
        program_address: Address(id(6)),
        addresses: vec![(Address(id(1)), true, true), (Address(id(4)), false, true)],
        data: vec![1, 2, 3],
    });
    let mut expected = vec![3u8, 1, 1, 6];
    for tag in 1..=6u8 {
        expected.extend_from_slice(&id(tag));
    }
    expected.extend_from_slice(&[0xee; 32]);
    expected.extend_from_slice(&[1, 5, 2, 0, 3, 3, 1, 2, 3]);
    assert_eq!(tx.message(), Ok(expected));
}

#[test]
fn encode_exact_bytes() {
    let mut tx = four_partitions();
    tx.signed_read_write_addresses[1].signature = Some(Signature::from_bytes(&sig(5)).unwrap());
    let mut expected = vec![3u8];
    expected.extend_from_slice(&[0u8; 64]);
    expected.extend_from_slice(&sig(5));
    expected.extend_from_slice(&[0u8; 64]);
    expected.extend_from_slice(&tx.message().unwrap());
    assert_eq!(tx.encode(), Ok(expected));
}

#[test]
fn message_writes_zeros_for_absent_blockhash() {
    let tx = four_partitions();
    let m = tx.message().unwrap();
    let start = 4 + 6 * 32;
    assert_eq!(&m[start..start + 32], &[0u8; 32]);
    assert_eq!(m[start + 32], 0);
    assert_eq!(m.len(), start + 33);
}

#[test]
fn message_does_not_depend_on_signatures() {
    let mut tx = four_partitions();
    let before = tx.message().unwrap();
    tx.sign(&Pubkey(id(1)), Signature::from_bytes(&sig(1)).unwrap()).unwrap();
    tx.sign(&Pubkey(id(3)), Signature::from_bytes(&sig(2)).unwrap()).unwrap();
    assert_eq!(tx.message().unwrap(), before);
}

#[test]
fn message_rejects_unknown_program_address() {
    let mut tx = four_partitions();
    tx.instructions.push(Instruction {
        program_address: Address(id(9)),
        addresses: vec![(Address(id(8)), false, false)],
        data: vec![0; 2000],
    });
    assert_eq!(
        tx.message(),
        Err(EncodeError::ProgramAddressNotFound { address: Address(id(9)) })
    );
}

#[test]
fn message_rejects_unknown_address() {
    let mut tx = four_partitions();
    tx.instructions.push(Instruction { program_address: Address(id(1)), addresses: vec![], data: vec![] });
    tx.instructions.push(Instruction {
        program_address: Address(id(1)),
        addresses: vec![(Address(id(2)), true, true), (Address(id(8)), false, false)],
        data: vec![0; 2000],
    });
    assert_eq!(tx.message(), Err(EncodeError::AddressNotFound { address: Address(id(8)) }));
    assert_eq!(tx.encode(), Err(EncodeError::AddressNotFound { address: Address(id(8)) }));
}

#[test]
fn message_rejects_long_data() {
    let mut tx = four_partitions();
    tx.instructions.push(Instruction {
        program_address: Address(id(1)),
        addresses: vec![],
        data: vec![0; 1193],
    });
    assert_eq!(tx.message(), Err(EncodeError::DataTooLong { len: 1193 }));
    tx.instructions[0].data.pop();
    assert!(tx.message().is_ok());
}

#[test]
fn message_rejects_too_many_signed_addresses() {
    let mut tx = four_partitions();
    while tx.signed_read_only_addresses.len() < 254 {
        tx.signed_read_only_addresses.push(slot(3, None));
    }
    assert_eq!(tx.message(), Err(EncodeError::TooManySignedAddresses));
    tx.signed_read_only_addresses.pop();
    assert!(tx.message().is_ok());
}

#[test]
fn message_rejects_too_many_instructions() {
    let mut tx = four_partitions();
    for _ in 0..65536 {
        tx.instructions.push(Instruction {
            program_address: Address(id(1)),
            addresses: vec![],
            data: vec![],
        });
    }
    assert_eq!(tx.message(), Err(EncodeError::TooManyInstructions));
}

#[test]
fn encode_rejects_too_many_slots() {
    let mut tx = four_partitions();
    while tx.signed_read_only_addresses.len() < 65534 {
        tx.signed_read_only_addresses.push(slot(3, None));
    }
    assert_eq!(tx.encode(), Err(EncodeError::TooManyAddresses));
    tx.signed_read_only_addresses.pop();
    assert_eq!(tx.encode(), Err(EncodeError::TooManySignedAddresses));
}

#[test]
fn encode_then_decode_gives_the_transaction_back() {
    let mut tx = four_partitions();
    tx.recent_blockhash = Some(Sha256Digest([3; 32]));
    tx.signed_read_only_addresses[0].signature = Some(Signature::from_bytes(&sig(4)).unwrap());
    tx.instructions.push(Instruction {
        program_address: Address(id(6)),
        addresses: vec![(Address(id(1)), true, true), (Address(id(3)), true, false)],
        data: vec![9; 300],
    });
    tx.instructions.push(Instruction { program_address: Address(id(5)), addresses: vec![], data: vec![] });
    let bytes = tx.encode().unwrap();
    assert_eq!(Transaction::decode(&bytes), Ok(tx));
}

#[test]
fn signature_accepts_only_clear_high_bits() {
    let mut bytes = [0xffu8; 64];
    bytes[63] = 0x1f;
    assert_eq!(Signature::from_bytes(&bytes).unwrap().to_bytes(), bytes);
    for last in [0x20u8, 0x40, 0x80, 0xff] {
        bytes[63] = last;
        assert!(Signature::from_bytes(&bytes).is_err());
    }
    assert!(Signature::from_bytes(&[0u8; 64]).is_ok());
}

#[test]
fn identity_text_is_base58() {
    assert_eq!(Pubkey([0u8; 32]).to_string(), "11111111111111111111111111111111");
    assert_eq!(Address([0u8; 32]).to_string(), "11111111111111111111111111111111");
    let mut one = [0u8; 32];
    one[31] = 1;
    assert_eq!(Pubkey(one).to_string(), "11111111111111111111111111111112");
    assert_eq!(Address([255u8; 32]).to_string(), bs58::encode([255u8; 32]).into_string());
    assert!(Address(one).is_key(&Pubkey(one)));
    assert!(!Address(one).is_key(&Pubkey([0u8; 32])));
}

#[test]
fn decode_fault_stays_when_more_bytes_follow() {
    let mut bytes = wire(&[[0u8; 64]], [1, 0, 0], &[id(1)], [7u8; 32], &[1, 0, 3, 0, 9]);
    let fault = Transaction::decode(&bytes);
    assert!(matches!(fault, Err(DecodeError::Fatal(_))));
    bytes.extend_from_slice(&[0, 0, 0, 0, 0, 0, 0]);
    assert_eq!(Transaction::decode(&bytes), fault);
}

#[test]
fn decoded_transaction_encodes_to_the_bytes_it_came_from() {
    let ins = [4u8, 2, 0, 3, 3, 0xaa, 0xbb, 0xcc];
    let mut section = vec![1u8];
    section.extend_from_slice(&ins);
    let bytes = wire(
        &[sig(1), [0u8; 64], sig(2)],
        [3, 1, 1],
        &[id(1), id(2), id(3), id(4), id(5)],
        [9u8; 32],
        &section,
    );
    let tx = Transaction::decode(&bytes).unwrap();
    assert_eq!(tx.encode(), Ok(bytes));
}

#[test]
fn nineteen_slots_are_written_but_not_read_back() {
    let mut tx = four_partitions();
    while tx.signed_read_only_addresses.len() < 17 {
        tx.signed_read_only_addresses.push(slot(3, None));
    }
    let bytes = tx.encode().unwrap();
    assert_eq!(
        Transaction::decode(&bytes),
        Err(DecodeError::Fatal(DecodeFault::TooManySignatures { count: 19 }))
    );
    tx.signed_read_only_addresses.pop();
    let bytes = tx.encode().unwrap();
    assert_eq!(Transaction::decode(&bytes), Ok(tx));
}

#[test]
fn a_reference_takes_the_flags_of_the_first_place_of_its_address() {
    let mut tx = four_partitions();
    tx.unsigned_read_only_addresses.push(Address(id(1)));
    tx.instructions.push(Instruction {
        program_address: Address(id(6)),
        addresses: vec![(Address(id(1)), false, false)],
        data: vec![],
    });
    let back = Transaction::decode(&tx.encode().unwrap()).unwrap();
    assert_eq!(back.instructions[0].addresses, vec![(Address(id(1)), true, true)]);
    assert_eq!(back.message(), tx.message());
    assert_eq!(back.encode(), tx.encode());
    assert_eq!(back.needed_signatures(), tx.needed_signatures());
    assert_eq!(Transaction::decode(&back.encode().unwrap()), Ok(back));
}

#[test]
fn a_signature_of_zeros_is_read_back_as_none() {
    let mut tx = four_partitions();
    tx.signed_read_write_addresses[0].signature = Some(Signature::from_bytes(&[0u8; 64]).unwrap());
    let back = Transaction::decode(&tx.encode().unwrap()).unwrap();
    assert_eq!(back.signed_read_write_addresses[0].signature, None);
}

#[test]
fn message_rejects_an_unsigned_read_only_count_beyond_one_byte() {
    let mut tx = four_partitions();
    while tx.unsigned_read_only_addresses.len() < 255 {
        tx.unsigned_read_only_addresses.push(Address(id(6)));
    }
    let m = tx.message().unwrap();
    assert_eq!(&m[..3], &[3, 1, 255]);
    tx.unsigned_read_only_addresses.push(Address(id(6)));
    assert_eq!(tx.message(), Err(EncodeError::TooManyAddresses));
    assert_eq!(tx.encode(), Err(EncodeError::TooManyAddresses));
}

#[test]
fn message_rejects_an_address_count_beyond_sixteen_bits() {
    let mut tx = four_partitions();
    // 3 signing slots and 1 unsigned read-only address are there
    tx.unsigned_read_write_addresses = vec![Address(id(4)); 65531];
    let m = tx.message().unwrap();
    assert_eq!(&m[..6], &[3, 1, 1, 0xff, 0xff, 0x03]);
    tx.unsigned_read_write_addresses.push(Address(id(4)));
    assert_eq!(tx.message(), Err(EncodeError::TooManyAddresses));
}

#[test]
fn message_rejects_an_address_behind_position_255() {
    let mut tx = four_partitions();
    tx.unsigned_read_write_addresses = vec![Address(id(4)); 252];
    // the table is 1, 2, 3, then 252 times 4, then 6 at position 255
    tx.instructions.push(Instruction {
        program_address: Address(id(6)),
        addresses: vec![(Address(id(6)), false, false)],
        data: vec![],
    });
    let m = tx.message().unwrap();
    assert_eq!(&m[m.len() - 5..], &[1, 255, 1, 255, 0]);
    tx.unsigned_read_write_addresses.push(Address(id(4)));
    assert_eq!(
        tx.message(),
        Err(EncodeError::AddressIndexTooLarge { address: Address(id(6)) })
    );
    tx.instructions[0].program_address = Address(id(1));
    assert_eq!(
        tx.message(),
        Err(EncodeError::AddressIndexTooLarge { address: Address(id(6)) })
    );
    tx.instructions[0].addresses[0].0 = Address(id(7));
    assert_eq!(tx.message(), Err(EncodeError::AddressNotFound { address: Address(id(7)) }));
    assert_eq!(tx.find_address_position(&Address(id(6))), Some(256));
    assert_eq!(tx.find_address_index(&Address(id(6))), Some(0));
    assert_eq!(tx.find_address_position(&Address(id(7))), None);
}

#[test]
fn message_rejects_a_reference_count_beyond_sixteen_bits() {
    let mut tx = four_partitions();
    tx.instructions.push(Instruction {
        program_address: Address(id(6)),
        addresses: vec![(Address(id(1)), true, true); 65536],
        data: vec![0; 5000],
    });
    assert_eq!(tx.message(), Err(EncodeError::TooManyInstructionAddresses { len: 65536 }));
    tx.instructions[0].addresses.pop();
    assert_eq!(tx.message(), Err(EncodeError::DataTooLong { len: 5000 }));
    tx.instructions[0].data.clear();
    let m = tx.message().unwrap();
    assert_eq!(m.len(), 4 + 6 * 32 + 32 + 1 + 1 + 3 + 65535 + 1);
    tx.instructions[0].program_address = Address(id(9));
    tx.instructions[0].addresses.push((Address(id(1)), true, true));
    assert_eq!(
        tx.message(),
        Err(EncodeError::ProgramAddressNotFound { address: Address(id(9)) })
    );
}

#[test]
fn message_faults_come_in_the_order_of_the_fields() {
    let mut tx = four_partitions();
    tx.unsigned_read_only_addresses = vec![Address(id(6)); 256];
    tx.instructions = vec![
        Instruction { program_address: Address(id(9)), addresses: vec![], data: vec![] };
        65536
    ];
    assert_eq!(tx.message(), Err(EncodeError::TooManyAddresses));
    tx.unsigned_read_only_addresses.pop();
    assert_eq!(tx.message(), Err(EncodeError::TooManyInstructions));
    tx.signed_read_only_addresses = vec![slot(3, None); 254];
    assert_eq!(tx.message(), Err(EncodeError::TooManySignedAddresses));
}

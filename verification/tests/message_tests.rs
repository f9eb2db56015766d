use solsign::error::{DecodeError, DecodeFault, EncodeError, KeyError, KeyFileError};
use solsign::model::Address;
use solsign::text::{candidate_label, challenge_prompt, decimal};

#[test]
fn decimal_writes_numbers() {
    for n in [0u64, 1, 9, 10, 11, 99, 100, 1190, 65535, 1000000007, u64::MAX] {
        assert_eq!(decimal(n), n.to_string());
    }
}

#[test]
fn decode_fault_messages() {
    assert_eq!(
        DecodeFault::TooManySignatures { count: 19 }.message(),
        "Too many signatures in transaction: expected at most 18, got 19"
    );
    assert_eq!(DecodeFault::MalformedSignature.message(), "signature error");
    assert_eq!(
        DecodeFault::TooManySignedAddresses { signed: 38 }.message(),
        "Too many signatures supplied: expected at most 38, got 37"
    );
    assert_eq!(
        DecodeFault::TooManySignaturesSupplied { signatures: 3, signed: 2 }.message(),
        "Too many signatures supplied: expected at most 2, got 3"
    );
    assert_eq!(
        DecodeFault::TooManySignedReadOnly { signed: 2, read_only: 5 }.message(),
        "Too many signed read only addresses: expected at most 2, got 5"
    );
    assert_eq!(
        DecodeFault::NoFeePayer.message(),
        "Minimum signed address count of 1 required for fee payer"
    );
    assert_eq!(
        DecodeFault::TooFewAddresses { supplied: 3, required: 260 }.message(),
        "Too few addresses in header; 3 supplied but at least 260 required"
    );
    assert_eq!(
        DecodeFault::InvalidProgramIndex { index: 200, instruction: 12 }.message(),
        "Invalid program id index 200 for instruction 12"
    );
    assert_eq!(
        DecodeFault::TooManyInstructionAddresses { instruction: 0, count: 1191 }.message(),
        "Too many addresses in instruction 0: expected at most 1190 got 1191"
    );
    assert_eq!(
        DecodeFault::InvalidAddressIndex { index: 7, instruction: 396 }.message(),
        "Invalid address index 7 referenced from instruction 396"
    );
    assert_eq!(
        DecodeFault::TooManyInstructionData { instruction: 5, count: 65535 }.message(),
        "Too many data bytes in instruction 5: expected at most 1192 got 65535"
    );
}

#[test]
fn decode_error_has_a_message_only_when_fatal() {
    assert_eq!(DecodeError::Incomplete.message(), None);
    assert_eq!(
        DecodeError::Fatal(DecodeFault::InvalidAddressIndex { index: 2, instruction: 1 }).message(),
        Some("Invalid address index 2 referenced from instruction 1".to_string())
    );
}

#[test]
fn encode_error_messages() {
    assert_eq!(EncodeError::TooManyAddresses.message(), "Too many addresses");
    assert_eq!(EncodeError::TooManySignedAddresses.message(), "Too many signed addresses");
    assert_eq!(EncodeError::TooManyInstructions.message(), "Too many instructions");
    assert_eq!(
        EncodeError::ProgramAddressNotFound { address: Address([0; 32]) }.message(),
        "Invalid Transaction - program address 11111111111111111111111111111111 not in address list"
    );
    assert_eq!(
        EncodeError::AddressNotFound { address: Address([0; 32]) }.message(),
        "Invalid Transaction - address 11111111111111111111111111111111 is not in address list"
    );
    assert_eq!(
        EncodeError::AddressIndexTooLarge { address: Address([0; 32]) }.message(),
        "Invalid Transaction - address 11111111111111111111111111111111 is beyond index 255 of the \
         address list"
    );
    assert_eq!(
        EncodeError::TooManyInstructionAddresses { len: 65536 }.message(),
        "Too many addresses in instruction: 65536 > 65535"
    );
    assert_eq!(
        EncodeError::DataTooLong { len: 1193 }.message(),
        "Instruction data len too long: 1193 > 1192"
    );
}

#[test]
fn key_error_messages() {
    assert_eq!(KeyError::SeedTooShort.message(), "Seed is too short");
    assert_eq!(
        KeyError::ExpectedHardenedIndex { index: 501 }.message(),
        "expected hardened child index: 501"
    );
    assert_eq!(
        KeyError::KeypairLength.message(),
        ed25519_dalek::Keypair::from_bytes(&[0u8; 63]).unwrap_err().to_string()
    );
    assert_eq!(
        KeyError::KeypairLength.message(),
        "signature error: Keypair must be 64 bytes in length"
    );
    let mut off = [1u8; 64];
    off[32..].copy_from_slice(&[0u8; 32]);
    off[32] = 2;
    assert_eq!(
        KeyError::PublicKeyOffCurve.message(),
        ed25519_dalek::Keypair::from_bytes(&off).unwrap_err().to_string()
    );
    assert_eq!(
        KeyError::PublicKeyOffCurve.message(),
        "signature error: Cannot decompress Edwards point"
    );
    assert_eq!(KeyError::Ed25519.message(), "ed25519 error");
}

#[test]
fn key_file_error_message() {
    assert_eq!(
        KeyFileError::InvalidValue { position: 63 }.message(),
        "invalid value at position 63"
    );
}

#[test]
fn challenge_prompt_counts_down() {
    assert_eq!(challenge_prompt(0), "  Enter challenge password (5 attempts remaining): ");
    assert_eq!(challenge_prompt(3), "  Enter challenge password (2 attempts remaining): ");
    assert_eq!(challenge_prompt(4), "  Enter challenge password (1 attempt remaining): ");
}

#[test]
fn candidate_labels() {
    assert_eq!(candidate_label(0), "                ");
    assert_eq!(candidate_label(1), "m/44'/501'/0'/0'");
    assert_eq!(candidate_label(9), "m/44'/501'/0'/8'");
}

use solsign::error::{Base64Error, DecodeFault, EncodeError, KeyFileError};
use solsign::keyfile::{parse_key_file, parse_number};
use solsign::keyring::{Completion, Keyring};
use solsign::keys::{keypair_from_seed, Keypair};
use solsign::model::{
    Address, Instruction, Pubkey, PubkeyWithSignature, Sha256Digest, Signature, Transaction,
};
use solsign::session::{base64_lines, challenge_step, feed_line, Challenge, Step};

fn keypair(tag: u8) -> Keypair {
    keypair_from_seed(&[tag; 32]).unwrap()
}

fn open(k: &Keypair) -> PubkeyWithSignature {
    PubkeyWithSignature { pubkey: k.pubkey(), signature: None }
}

fn transaction(rw: Vec<PubkeyWithSignature>, ro: Vec<PubkeyWithSignature>) -> Transaction {
    Transaction {
        signed_read_write_addresses: rw,
        signed_read_only_addresses: ro,
        unsigned_read_write_addresses: vec![Address([9; 32])],
        unsigned_read_only_addresses: vec![Address([8; 32])],
        recent_blockhash: Some(Sha256Digest([4; 32])),
        instructions: vec![Instruction {
            program_address: Address([8; 32]),
            addresses: vec![(Address([9; 32]), false, true)],
            data: vec![1, 2, 3, 4],
        }],
    }
}

#[test]
fn keyring_keeps_keys_in_the_order_they_came() {
    let mut ring = Keyring::new();
    assert_eq!(ring.len(), 0);
    assert_eq!(ring.public_keys(), vec![]);
    let (a, b, c) = (keypair(1), keypair(2), keypair(3));
    assert!(ring.insert(b));
    assert!(ring.insert(a));
    assert!(ring.insert(c));
    assert_eq!(ring.len(), 3);
    assert_eq!(ring.public_keys(), vec![b.pubkey(), a.pubkey(), c.pubkey()]);
    assert_eq!(ring.get(&a.pubkey()), Some(a));
    assert_eq!(ring.get(&c.pubkey()), Some(c));
    assert_eq!(ring.get(&keypair(4).pubkey()), None);
}

#[test]
fn keyring_replaces_a_keypair_with_the_same_public_key() {
    let mut ring = Keyring::new();
    let (a, b) = (keypair(1), keypair(2));
    let other = Keypair { secret: [77; 32], public: a.public };
    assert!(ring.insert(a));
    assert!(ring.insert(b));
    assert!(!ring.insert(other));
    assert_eq!(ring.len(), 2);
    assert_eq!(ring.public_keys(), vec![a.pubkey(), b.pubkey()]);
    assert_eq!(ring.get(&a.pubkey()), Some(other));
    assert!(!ring.insert(a));
    assert_eq!(ring.get(&a.pubkey()), Some(a));
}

#[test]
fn sign_with_keys_signs_what_the_keyring_can() {
    let (a, b, c) = (keypair(1), keypair(2), keypair(3));
    let mut ring = Keyring::new();
    ring.insert(a);
    ring.insert(c);
    let mut tx = transaction(vec![open(&a), open(&b)], vec![open(&c), open(&a)]);
    let message = tx.message().unwrap();
    assert_eq!(tx.sign_with_keys(&ring), Ok(vec![b.pubkey()]));
    let by_a = a.sign(&message);
    assert!(by_a.is_some());
    assert_eq!(tx.signed_read_write_addresses[0].signature, by_a);
    assert_eq!(tx.signed_read_write_addresses[1].signature, None);
    assert_eq!(tx.signed_read_only_addresses[0].signature, c.sign(&message));
    assert_eq!(tx.signed_read_only_addresses[1].signature, by_a);
    assert_eq!(tx.message().unwrap(), message);
}

#[test]
fn sign_with_keys_keeps_signatures_that_are_there() {
    let (a, b) = (keypair(1), keypair(2));
    let mut earlier = [3u8; 64];
    earlier[63] = 0;
    let earlier = Signature::from_bytes(&earlier).unwrap();
    let mut ring = Keyring::new();
    ring.insert(a);
    ring.insert(b);
    let mut tx = transaction(
        vec![PubkeyWithSignature { pubkey: a.pubkey(), signature: Some(earlier) }, open(&b)],
        vec![],
    );
    assert_eq!(tx.sign_with_keys(&ring), Ok(vec![]));
    assert_eq!(tx.signed_read_write_addresses[0].signature, Some(earlier));
    assert_eq!(tx.signed_read_write_addresses[1].signature, b.sign(&tx.message().unwrap()));
}

#[test]
fn sign_with_keys_signs_nothing_when_the_message_fails() {
    let a = keypair(1);
    let mut ring = Keyring::new();
    ring.insert(a);
    let mut tx = transaction(vec![open(&a)], vec![]);
    tx.instructions[0].program_address = Address([1; 32]);
    let copy = tx.clone();
    assert_eq!(
        tx.sign_with_keys(&ring),
        Err(EncodeError::ProgramAddressNotFound { address: Address([1; 32]) })
    );
    assert_eq!(tx, copy);
}

#[test]
fn sign_with_keys_leaves_a_key_off_the_curve_outstanding() {
    let mut off = [0u8; 32];
    off[0] = 2;
    let broken = Keypair { secret: [1; 32], public: off };
    let mut ring = Keyring::new();
    ring.insert(broken);
    let mut tx = transaction(vec![open(&broken)], vec![]);
    assert_eq!(tx.sign_with_keys(&ring), Ok(vec![Pubkey(off)]));
    assert_eq!(tx.signed_read_write_addresses[0].signature, None);
}

#[test]
fn completion_of_a_fully_signed_transaction() {
    let (a, b) = (keypair(1), keypair(2));
    let mut ring = Keyring::new();
    ring.insert(a);
    ring.insert(b);
    let mut tx = transaction(vec![open(&a)], vec![open(&b)]);
    tx.sign_with_keys(&ring).unwrap();
    assert_eq!(
        tx.completion(),
        Ok(Completion::Complete {
            signature: a.sign(&tx.message().unwrap()).unwrap(),
            transaction: tx.encode().unwrap(),
        })
    );
}

#[test]
fn completion_of_a_partly_signed_transaction() {
    let (a, b) = (keypair(1), keypair(2));
    let mut ring = Keyring::new();
    ring.insert(a);
    let mut tx = transaction(vec![open(&a)], vec![open(&b)]);
    tx.sign_with_keys(&ring).unwrap();
    assert_eq!(
        tx.completion(),
        Ok(Completion::Partial { outstanding: vec![b.pubkey()], transaction: tx.encode().unwrap() })
    );
    let tx = transaction(vec![open(&a)], vec![]);
    assert_eq!(
        tx.completion(),
        Ok(Completion::Partial { outstanding: vec![a.pubkey()], transaction: tx.encode().unwrap() })
    );
}

#[test]
fn completion_fails_where_encoding_fails() {
    let a = keypair(1);
    let mut tx = transaction(vec![open(&a)], vec![]);
    tx.instructions[0].data = vec![0; 1193];
    assert_eq!(tx.completion(), Err(EncodeError::DataTooLong { len: 1193 }));
}

#[test]
fn base64_lines_are_72_wide() {
    assert_eq!(base64_lines(&[]), Vec::<String>::new());
    assert_eq!(base64_lines(b"hello world"), vec!["aGVsbG8gd29ybGQ=".to_string()]);
    let bytes: Vec<u8> = (0..100u8).collect();
    let text = base64::encode(&bytes);
    assert_eq!(text.len(), 136);
    assert_eq!(base64_lines(&bytes), vec![text[..72].to_string(), text[72..].to_string()]);
    let bytes = [5u8; 54];
    let lines = base64_lines(&bytes);
    assert_eq!(lines, vec![base64::encode(bytes)]);
    assert_eq!(lines[0].len(), 72);
    let bytes = [5u8; 55];
    let lines = base64_lines(&bytes);
    assert_eq!(lines.len(), 2);
    assert_eq!(lines[1].len(), 4);
}

#[test]
fn feed_line_collects_lines_until_a_transaction_is_there() {
    let a = keypair(1);
    let tx = transaction(vec![open(&a)], vec![]);
    let lines = base64_lines(&tx.encode().unwrap());
    assert!(lines.len() >= 2);
    let mut buffer = String::new();
    for line in &lines[..lines.len() - 1] {
        assert_eq!(feed_line(&mut buffer, line), Step::More);
    }
    assert_eq!(feed_line(&mut buffer, ""), Step::More);
    assert_eq!(feed_line(&mut buffer, &lines[lines.len() - 1]), Step::Decoded(tx));
    assert_eq!(buffer, lines.concat());
}

#[test]
fn feed_line_rejects_bytes_that_are_no_transaction() {
    let mut buffer = String::new();
    assert_eq!(
        feed_line(&mut buffer, &base64::encode([19u8])),
        Step::Rejected(DecodeFault::TooManySignatures { count: 19 })
    );
}

#[test]
fn feed_line_gives_up_on_a_blank_line_when_the_text_is_not_base64() {
    let mut buffer = String::new();
    assert_eq!(feed_line(&mut buffer, "AQ*"), Step::More);
    assert_eq!(feed_line(&mut buffer, ""), Step::Invalid(Base64Error::InvalidByte(2, b'*')));
    let mut buffer = String::new();
    assert_eq!(feed_line(&mut buffer, "AQAAA"), Step::More);
    assert_eq!(feed_line(&mut buffer, ""), Step::Invalid(Base64Error::InvalidLength));
    let mut buffer = String::new();
    assert_eq!(feed_line(&mut buffer, ""), Step::More);
}

#[test]
fn key_file_of_a_keypair() {
    let k = keypair(9);
    let mut bytes = k.secret.to_vec();
    bytes.extend_from_slice(&k.public);
    let text = format!("{:?}", bytes);
    assert_eq!(parse_key_file(&text), Ok(bytes.clone()));
    assert_eq!(Keypair::from_bytes(&parse_key_file(&text).unwrap()), Ok(k));
    let dense: Vec<String> = bytes.iter().map(|b| b.to_string()).collect();
    assert_eq!(parse_key_file(&dense.join(",")), Ok(bytes));
}

#[test]
fn key_file_blanks_and_brackets_do_not_count() {
    assert_eq!(parse_key_file("[1,2,3]"), Ok(vec![1, 2, 3]));
    assert_eq!(parse_key_file(" 1 , 2 ,3 "), Ok(vec![1, 2, 3]));
    assert_eq!(parse_key_file("1 2,[3]"), Ok(vec![12, 3]));
    assert_eq!(parse_key_file("]]0[["), Ok(vec![0]));
    assert_eq!(parse_key_file("255,+7,007,0"), Ok(vec![255, 7, 7, 0]));
}

#[test]
fn key_file_rejects_what_is_no_byte() {
    assert_eq!(parse_key_file(""), Err(KeyFileError::InvalidValue { position: 0 }));
    assert_eq!(parse_key_file("[]"), Err(KeyFileError::InvalidValue { position: 0 }));
    assert_eq!(parse_key_file("1,256"), Err(KeyFileError::InvalidValue { position: 1 }));
    assert_eq!(parse_key_file("1,,2"), Err(KeyFileError::InvalidValue { position: 1 }));
    assert_eq!(parse_key_file("1,2,"), Err(KeyFileError::InvalidValue { position: 2 }));
    assert_eq!(parse_key_file("[1,2,3]\n"), Err(KeyFileError::InvalidValue { position: 2 }));
    assert_eq!(parse_key_file("-1"), Err(KeyFileError::InvalidValue { position: 0 }));
    assert_eq!(parse_key_file("x,300"), Err(KeyFileError::InvalidValue { position: 0 }));
    assert_eq!(parse_key_file("1\t,2"), Err(KeyFileError::InvalidValue { position: 0 }));
}

#[test]
fn number_parses_as_the_standard_library_does() {
    for text in ["0", "9", "10", "255", "256", "999", "+", "+0", "++1", "", "1a", "0000000000000000255", "00000000000000000000256", "+255", "+256", "-0", "２"] {
        assert_eq!(parse_number(&text.as_bytes().to_vec()), text.parse::<u8>().ok(), "{:?}", text);
    }
    for n in 0..=300u16 {
        let text = n.to_string();
        assert_eq!(parse_number(&text.as_bytes().to_vec()), text.parse::<u8>().ok());
    }
}

#[test]
fn challenge_allows_five_attempts() {
    for failed in 0..5u8 {
        assert_eq!(challenge_step(failed, true), Challenge::Passed);
    }
    for failed in 0..4u8 {
        assert_eq!(challenge_step(failed, false), Challenge::Again);
    }
    assert_eq!(challenge_step(4, false), Challenge::Failed);
}

use solsign::model::{Address, Pubkey, PubkeyWithSignature, Sha256Digest, Signature, Transaction};

fn key(tag: u8) -> Pubkey {
    let mut a = [0u8; 32];
    a[0] = tag;
    a[5] = tag.wrapping_mul(37);
    Pubkey(a)
}

fn signature(tag: u8) -> Signature {
    let mut s = [tag; 64];
    s[63] = 1;
    Signature::from_bytes(&s).unwrap()
}

fn open(k: Pubkey) -> PubkeyWithSignature {
    PubkeyWithSignature { pubkey: k, signature: None }
}

fn signed(k: Pubkey, tag: u8) -> PubkeyWithSignature {
    PubkeyWithSignature { pubkey: k, signature: Some(signature(tag)) }
}

fn transaction(rw: Vec<PubkeyWithSignature>, ro: Vec<PubkeyWithSignature>) -> Transaction {
    Transaction {
        signed_read_write_addresses: rw,
        signed_read_only_addresses: ro,
        unsigned_read_write_addresses: vec![Address([9; 32])],
        unsigned_read_only_addresses: vec![],
        recent_blockhash: Some(Sha256Digest([4; 32])),
        instructions: vec![],
    }
}

fn by_text(mut keys: Vec<Pubkey>) -> Vec<Pubkey> {
    keys.sort_by_key(|k| bs58::encode(k.0).into_string());
    keys
}

#[test]
fn needed_signatures_lists_open_slots_sorted_by_base58() {
    let (a, b, c) = (key(200), key(3), key(90));
    let tx = transaction(vec![open(a), open(b)], vec![signed(c, 1)]);
    assert_eq!(tx.needed_signatures(), by_text(vec![a, b]));
    let tx = transaction(vec![open(b), open(a)], vec![signed(c, 1)]);
    assert_eq!(tx.needed_signatures(), by_text(vec![a, b]));
}

#[test]
fn needed_signatures_order_is_that_of_the_text_not_of_the_bytes() {
    // a longer run of leading zero bytes gives a text with more leading '1',
    // and '1' is the smallest base58 digit
    let mut low = [0u8; 32];
    low[31] = 255;
    let mut high = [0u8; 32];
    high[0] = 1;
    let tx = transaction(vec![open(Pubkey(high)), open(Pubkey(low))], vec![]);
    let needed = tx.needed_signatures();
    let texts: Vec<String> = needed.iter().map(|k| k.to_string()).collect();
    let mut sorted = texts.clone();
    sorted.sort();
    assert_eq!(texts, sorted);
    assert_eq!(needed.len(), 2);
}

#[test]
fn needed_signatures_drops_a_key_that_repeats() {
    let (a, b) = (key(1), key(2));
    let tx = transaction(vec![open(a), open(b)], vec![open(a)]);
    assert_eq!(tx.needed_signatures(), by_text(vec![a, b]));
}

#[test]
fn needed_signatures_is_empty_when_all_slots_are_signed() {
    let tx = transaction(vec![signed(key(1), 1)], vec![signed(key(2), 2)]);
    assert_eq!(tx.needed_signatures(), vec![]);
}

#[test]
fn needed_signatures_does_not_change_the_transaction() {
    let tx = transaction(vec![open(key(5)), signed(key(6), 1)], vec![open(key(7))]);
    let copy = tx.clone();
    let first = tx.needed_signatures();
    assert_eq!(tx.needed_signatures(), first);
    assert_eq!(tx, copy);
}

#[test]
fn needed_signatures_of_many_keys_are_sorted() {
    let keys: Vec<Pubkey> = (1..=30u8).map(|t| key(t.wrapping_mul(101))).collect();
    let tx = transaction(keys.iter().map(|k| open(*k)).collect(), vec![]);
    assert_eq!(tx.needed_signatures(), by_text(keys));
}

#[test]
fn sign_fills_every_slot_of_the_key() {
    let (a, b) = (key(1), key(2));
    let mut tx = transaction(vec![open(a), open(b)], vec![open(a), signed(b, 7)]);
    assert_eq!(tx.sign(&a, signature(3)), Ok(()));
    assert_eq!(tx.signed_read_write_addresses, vec![signed(a, 3), open(b)]);
    assert_eq!(tx.signed_read_only_addresses, vec![signed(a, 3), signed(b, 7)]);
    assert_eq!(tx.needed_signatures(), vec![b]);
}

#[test]
fn sign_replaces_an_earlier_signature() {
    let a = key(1);
    let mut tx = transaction(vec![signed(a, 1)], vec![]);
    tx.sign(&a, signature(2)).unwrap();
    assert_eq!(tx.signed_read_write_addresses, vec![signed(a, 2)]);
}

#[test]
fn sign_with_a_key_of_no_slot_changes_nothing() {
    let mut tx = transaction(vec![open(key(1))], vec![open(key(2))]);
    let copy = tx.clone();
    assert_eq!(tx.sign(&key(3), signature(1)), Ok(()));
    assert_eq!(tx, copy);
}

#[test]
fn two_parties_sign_one_after_the_other() {
    let (a, b) = (key(10), key(20));
    let start = transaction(vec![open(a), open(b)], vec![]).encode().unwrap();

    let mut at_a = Transaction::decode(&start).unwrap();
    let message_a = at_a.message().unwrap();
    at_a.sign(&a, signature(1)).unwrap();
    assert_eq!(at_a.needed_signatures(), vec![b]);
    let handed_over = at_a.encode().unwrap();

    let mut at_b = Transaction::decode(&handed_over).unwrap();
    assert_eq!(at_b.message().unwrap(), message_a);
    assert_eq!(at_b.needed_signatures(), vec![b]);
    at_b.sign(&b, signature(2)).unwrap();
    let done = at_b.encode().unwrap();

    let last = Transaction::decode(&done).unwrap();
    assert_eq!(last.signed_read_write_addresses, vec![signed(a, 1), signed(b, 2)]);
    assert_eq!(last.needed_signatures(), vec![]);
    assert_eq!(last.message().unwrap(), message_a);
}

#[test]
fn hand_off_keeps_the_message_where_an_address_is_in_the_table_twice() {
    let (a, b) = (key(10), key(20));
    let mut start = transaction(vec![open(a), open(b)], vec![]);
    start.unsigned_read_only_addresses.push(Address(a.0));
    start.instructions.push(solsign::model::Instruction {
        program_address: Address([9; 32]),
        addresses: vec![(Address(a.0), false, false), (Address(b.0), true, true)],
        data: vec![7; 40],
    });
    let mut tx = Transaction::decode(&start.encode().unwrap()).unwrap();
    let message = tx.message().unwrap();
    assert_eq!(message, start.message().unwrap());
    tx.sign(&a, signature(1)).unwrap();
    let next = Transaction::decode(&tx.encode().unwrap()).unwrap();
    assert_eq!(next.message().unwrap(), message);
    assert_eq!(next.needed_signatures(), vec![b]);
    assert_eq!(next, tx);
}

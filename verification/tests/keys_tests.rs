use ed25519_dalek::Verifier;
use solsign::error::KeyError;
use solsign::keys::{
    bip32_derived_keypair, candidate_keypairs, generate_seed_from_seed_phrase_and_passphrase,
    keypair_from_seed, keypair_from_seed_and_derivation_path, ChildIndex, Keypair,
};
use solsign::model::{Address, Pubkey, PubkeyWithSignature, Sha256Digest, Transaction};

fn hex(text: &str) -> Vec<u8> {
    (0..text.len() / 2).map(|i| u8::from_str_radix(&text[2 * i..2 * i + 2], 16).unwrap()).collect()
}

const PHRASE: &str =
    "abandon abandon abandon abandon abandon abandon abandon abandon abandon abandon abandon about";

#[test]
fn seed_of_a_known_phrase() {
    let seed = generate_seed_from_seed_phrase_and_passphrase(PHRASE, "TREZOR");
    assert_eq!(
        seed,
        hex("c55257c360c07c72029aebc1b53c05ed0362ada38ead3e3e9efa3708e53495531f09a6987599d18264c1e1c92f2cf141630c7a3c4ab7c81b2f001698e7463b04")
    );
}

#[test]
fn seed_is_pbkdf2_with_the_mnemonic_salt() {
    let seed = generate_seed_from_seed_phrase_and_passphrase("some words", "pass");
    let mut expected = vec![0u8; 64];
    pbkdf2::pbkdf2::<hmac::Hmac<sha2::Sha512>>(b"some words", b"mnemonicpass", 2048, &mut expected);
    assert_eq!(seed, expected);
    assert_eq!(seed.len(), 64);
    let empty = generate_seed_from_seed_phrase_and_passphrase("some words", "");
    pbkdf2::pbkdf2::<hmac::Hmac<sha2::Sha512>>(b"some words", b"mnemonic", 2048, &mut expected);
    assert_eq!(empty, expected);
    assert_ne!(empty, seed);
}

#[test]
fn root_keypair_takes_the_first_32_bytes() {
    let seed: Vec<u8> = (0..64u8).collect();
    let k = keypair_from_seed(&seed).unwrap();
    assert_eq!(k.secret.to_vec(), seed[..32].to_vec());
    let secret = ed25519_dalek::SecretKey::from_bytes(&seed[..32]).unwrap();
    assert_eq!(k.public, ed25519_dalek::PublicKey::from(&secret).to_bytes());
    assert_ne!(k.public, k.secret);
    assert_eq!(keypair_from_seed(&seed[..32]), Ok(k));
}

#[test]
fn root_keypair_of_a_known_secret() {
    // first test of RFC 8032, section 7.1
    let secret = hex("9d61b19deffd5a60ba844af492ec2cc44449c5697b326919703bac031cae7f60");
    let k = keypair_from_seed(&secret).unwrap();
    assert_eq!(
        k.public.to_vec(),
        hex("d75a980182b10ab7d54bfed3c964073a0ee172f3daa62325af021a68f707511a")
    );
}

#[test]
fn root_keypair_needs_32_bytes() {
    assert_eq!(keypair_from_seed(&[1u8; 31]), Err(KeyError::SeedTooShort));
    assert_eq!(keypair_from_seed(&[]), Err(KeyError::SeedTooShort));
}

#[test]
fn derived_keypair_of_a_known_seed() {
    let seed = hex("000102030405060708090a0b0c0d0e0f");
    let path = vec![
        ChildIndex::Hardened(0),
        ChildIndex::Hardened(1),
        ChildIndex::Hardened(2),
        ChildIndex::Hardened(2),
        ChildIndex::Hardened(1000000000),
    ];
    let k = bip32_derived_keypair(&seed, &path).unwrap();
    assert_eq!(
        k.secret.to_vec(),
        hex("8f94d394a8e8fd6b1bc2f3f49f5c47e385281d5c17e65324b0f62483e37e8793")
    );
    assert_eq!(
        k.public.to_vec(),
        hex("3c24da049451555d51a7014a37337aa4e12d41e485abccfa46b47dfb2af54b7a")
    );
    assert_eq!(keypair_from_seed_and_derivation_path(&seed, &path), Ok(k));
}

#[test]
fn derived_keypair_of_the_empty_path_is_the_root_of_the_tree() {
    let seed = hex("000102030405060708090a0b0c0d0e0f");
    let k = bip32_derived_keypair(&seed, &vec![]).unwrap();
    assert_eq!(
        k.secret.to_vec(),
        hex("2b4be7f19ee27bbf30c667b642d5f4aa69fd169872f8fc3059c08ebae2eb19e7")
    );
}

#[test]
fn derivation_rejects_a_step_that_is_not_hardened() {
    let seed = [7u8; 64];
    let path = vec![ChildIndex::Hardened(44), ChildIndex::Normal(501), ChildIndex::Normal(3)];
    assert_eq!(
        bip32_derived_keypair(&seed, &path),
        Err(KeyError::ExpectedHardenedIndex { index: 501 })
    );
}

#[test]
fn candidates_are_the_root_and_nine_wallet_paths() {
    let seed = generate_seed_from_seed_phrase_and_passphrase(PHRASE, "");
    let found = candidate_keypairs(&seed).unwrap();
    assert_eq!(found.len(), 10);
    assert_eq!(found[0], keypair_from_seed(&seed).unwrap());
    for i in 0..9u32 {
        let path = vec![
            ChildIndex::Hardened(44),
            ChildIndex::Hardened(501),
            ChildIndex::Hardened(0),
            ChildIndex::Hardened(i),
        ];
        assert_eq!(found[i as usize + 1], bip32_derived_keypair(&seed, &path).unwrap());
    }
    for i in 0..10 {
        for j in 0..i {
            assert_ne!(found[i], found[j]);
        }
    }
    assert_eq!(candidate_keypairs(&seed), Ok(found));
}

#[test]
fn candidates_need_a_seed_of_32_bytes() {
    assert_eq!(candidate_keypairs(&[0u8; 16]), Err(KeyError::SeedTooShort));
}

#[test]
fn keypair_from_bytes_splits_secret_and_public() {
    let k = keypair_from_seed(&[5u8; 32]).unwrap();
    let mut bytes = k.secret.to_vec();
    bytes.extend_from_slice(&k.public);
    assert_eq!(Keypair::from_bytes(&bytes), Ok(k));
    assert_eq!(Keypair::from_bytes(&bytes[..63]), Err(KeyError::KeypairLength));
    assert_eq!(Keypair::from_bytes(&[]), Err(KeyError::KeypairLength));
    assert_eq!(k.pubkey(), Pubkey(k.public));
}

#[test]
fn keypair_from_bytes_rejects_a_public_key_off_the_curve() {
    let mut bytes = vec![1u8; 32];
    let mut off = [0u8; 32];
    off[0] = 2;
    assert!(ed25519_dalek::PublicKey::from_bytes(&off).is_err());
    bytes.extend_from_slice(&off);
    assert_eq!(Keypair::from_bytes(&bytes), Err(KeyError::PublicKeyOffCurve));
    bytes.push(0);
    assert_eq!(Keypair::from_bytes(&bytes), Err(KeyError::KeypairLength));
    assert_eq!(Keypair { secret: [1; 32], public: off }.sign(b"x"), None);
}

#[test]
fn keypair_signs_as_ed25519_does() {
    // first test of RFC 8032, section 7.1: the empty message
    let k = keypair_from_seed(&hex(
        "9d61b19deffd5a60ba844af492ec2cc44449c5697b326919703bac031cae7f60",
    ))
    .unwrap();
    let s = k.sign(b"").unwrap();
    assert_eq!(
        s.to_bytes().to_vec(),
        hex("e5564300c360ac729086e2cc806e828a84877f1eb8e5d974d873e065224901555fb8821590a33bacc61e39701cf9b46bd25bf5f0595bbe24655141438e7a100b")
    );
}

#[test]
fn signed_fee_payer_signature_verifies() {
    let k = keypair_from_seed(&[42u8; 32]).unwrap();
    let start = Transaction {
        signed_read_write_addresses: vec![PubkeyWithSignature { pubkey: k.pubkey(), signature: None }],
        signed_read_only_addresses: vec![],
        unsigned_read_write_addresses: vec![Address([3; 32])],
        unsigned_read_only_addresses: vec![],
        recent_blockhash: Some(Sha256Digest([8; 32])),
        instructions: vec![],
    }
    .encode()
    .unwrap();

    let mut tx = Transaction::decode(&start).unwrap();
    let message = tx.message().unwrap();
    for needed in tx.needed_signatures() {
        assert_eq!(needed, k.pubkey());
        tx.sign(&needed, k.sign(&message).unwrap()).unwrap();
    }
    assert_eq!(tx.needed_signatures(), vec![]);

    let again = Transaction::decode(&tx.encode().unwrap()).unwrap();
    let fee_payer = again.signed_read_write_addresses[0];
    let signature =
        ed25519_dalek::Signature::from_bytes(&fee_payer.signature.unwrap().to_bytes()).unwrap();
    let public = ed25519_dalek::PublicKey::from_bytes(&fee_payer.pubkey.0).unwrap();
    assert!(public.verify(&again.message().unwrap(), &signature).is_ok());
    assert!(public.verify(b"another message", &signature).is_err());
}

//! From a mnemonic phrase to keypairs.
//!
//! A phrase and a passphrase give a seed; the seed gives a root keypair, and
//! along a path of hardened indices a derived keypair. Equal inputs give
//! equal keypairs.

use vstd::prelude::*;
use vstd::string::StringSliceAdditionalSpecFns;
use crate::error::KeyError;
use crate::model::{Pubkey, Signature};
use crate::trusted::{
    bip32_child_key, bip32_derive, bip32_master, bip32_master_key, ed25519_point_valid,
    ed25519_public_key, ed25519_sign, ed25519_signature, keypair_from_bytes, pbkdf2_hmac_sha512,
    pbkdf2_sha512, public_key_of,
};

verus! {

/// The number of rounds of the seed derivation.
pub const PBKDF2_ROUNDS: u32 = 2048;

/// The length of a seed in bytes.
pub const PBKDF2_BYTES: usize = 64;

/// One step of a derivation path.
#[derive(Debug, Clone, Copy, PartialEq, Eq)]
pub enum ChildIndex {
    Hardened(u32),
    Normal(u32),
}

impl ChildIndex {
    /// The number of the step, whichever kind it is.
    pub open spec fn number(self) -> u32 {
        match self {
            ChildIndex::Hardened(n) => n,
            ChildIndex::Normal(n) => n,
        }
    }
}

/// Whether every step of `path` is hardened.
pub open spec fn all_hardened(path: Seq<ChildIndex>) -> bool {
    forall|i: int| 0 <= i < path.len() ==> path[i] is Hardened
}

/// The numbers of the steps of `path`.
pub open spec fn path_numbers(path: Seq<ChildIndex>) -> Seq<u32> {
    path.map_values(|c: ChildIndex| c.number())
}

/// Whether `i` is the first step of `path` that is not hardened.
pub open spec fn is_first_normal(path: Seq<ChildIndex>, i: int) -> bool {
    &&& 0 <= i < path.len()
    &&& path[i] is Normal
    &&& forall|j: int| 0 <= j < i ==> path[j] is Hardened
}

/// The salt of the seed derivation: the word "mnemonic" and the passphrase.
pub open spec fn mnemonic_salt(passphrase: Seq<u8>) -> Seq<u8> {
    seq![0x6du8, 0x6eu8, 0x65u8, 0x6du8, 0x6fu8, 0x6eu8, 0x69u8, 0x63u8] + passphrase
}

/// The seed of a phrase and a passphrase, both as UTF-8 bytes.
pub open spec fn seed_of(phrase: Seq<u8>, passphrase: Seq<u8>) -> Seq<u8> {
    pbkdf2_hmac_sha512(phrase, mnemonic_salt(passphrase), PBKDF2_ROUNDS, PBKDF2_BYTES as nat)
}

/// The path `m/44'/501'/0'/i'`.
pub open spec fn wallet_path(i: u32) -> Seq<ChildIndex> {
    seq![
        ChildIndex::Hardened(44),
        ChildIndex::Hardened(501),
        ChildIndex::Hardened(0),
        ChildIndex::Hardened(i),
    ]
}

/// A key of the tree: a secret key, and the chain code that leads on to its
/// children.
#[derive(Debug, Clone, Copy, PartialEq, Eq)]
pub struct ExtendedKey {
    pub secret_key: [u8; 32],
    pub chain_code: [u8; 32],
}

/// A secret key and the public key held with it.
#[derive(Debug, Clone, Copy, PartialEq, Eq)]
pub struct Keypair {
    pub secret: [u8; 32],
    pub public: [u8; 32],
}

/// The view of a keypair.
pub struct KeypairView {
    pub secret: Seq<u8>,
    pub public: Seq<u8>,
}

impl View for Keypair {
    type V = KeypairView;

    open spec fn view(&self) -> KeypairView {
        KeypairView { secret: self.secret@, public: self.public@ }
    }
}

/// The keypair of a secret key: the secret key with the public key that
/// belongs to it.
pub open spec fn keypair_of(secret: Seq<u8>) -> KeypairView {
    KeypairView { secret, public: ed25519_public_key(secret) }
}

/// The keypair that `path` leads to from the root of the tree of `seed`.
pub open spec fn derived_keypair(seed: Seq<u8>, path: Seq<ChildIndex>) -> KeypairView {
    let root = bip32_master_key(seed);
    keypair_of(bip32_child_key(root.0, root.1, path_numbers(path)).0)
}

/// The keypairs that a seed offers: the root keypair, then those of the
/// paths `m/44'/501'/0'/i'` for `i` from 0 to 8.
pub open spec fn candidates_of(seed: Seq<u8>) -> Seq<KeypairView> {
    Seq::new(
        10,
        |k: int|
            if k == 0 {
                keypair_of(seed.subrange(0, 32))
            } else {
                derived_keypair(seed, wallet_path((k - 1) as u32))
            },
    )
}

impl Keypair {
    /// The public key as the key of a signing slot.
    pub fn pubkey(&self) -> (r: Pubkey)
        ensures
            r@ == self@.public,
    {
        Pubkey(self.public)
    }

    /// Takes 64 bytes, a secret key and then a public key, as a keypair. The
    /// public key must be a point of the curve; that it belongs to the
    /// secret key is not asked.
    pub fn from_bytes(bytes: &[u8]) -> (r: Result<Keypair, KeyError>)
        ensures
            r is Ok <==> bytes@.len() == 64 && ed25519_point_valid(bytes@.subrange(32, 64)),
            r matches Ok(k) ==> k@.secret == bytes@.subrange(0, 32) && k@.public
                == bytes@.subrange(32, 64),
            bytes@.len() != 64 ==> r == Err::<Keypair, KeyError>(KeyError::KeypairLength),
            bytes@.len() == 64 && !ed25519_point_valid(bytes@.subrange(32, 64)) ==> r == Err::<
                Keypair,
                KeyError,
            >(KeyError::PublicKeyOffCurve),
    {
        match keypair_from_bytes(bytes) {
            Ok(k) => Ok(k),
            Err(_) => if bytes.len() != 64 {
                Err(KeyError::KeypairLength)
            } else {
                Err(KeyError::PublicKeyOffCurve)
            },
        }
    }

    /// Signs `message`. There is a signature if and only if the public key
    /// is a point of the curve.
    pub fn sign(&self, message: &[u8]) -> (r: Option<Signature>)
        ensures
            r is Some <==> ed25519_point_valid(self@.public),
            r matches Some(s) ==> s@ == ed25519_signature(self@.secret, self@.public, message@),
    {
        match ed25519_sign(&self.secret, &self.public, message) {
            None => None,
            Some(bytes) => match Signature::from_bytes(&bytes) {
                Ok(s) => Some(s),
                Err(_) => None,
            },
        }
    }
}

/// The seed of a mnemonic phrase and a passphrase: PBKDF2 with HMAC-SHA512
/// in 2048 rounds, with the phrase as password and "mnemonic" followed by
/// the passphrase as salt, 64 bytes long.
pub fn generate_seed_from_seed_phrase_and_passphrase(seed_phrase: &str, passphrase: &str) -> (r:
    Vec<u8>)
    ensures
        r@ == seed_of(seed_phrase.spec_bytes(), passphrase.spec_bytes()),
        r@.len() == 64,
{
    let mut salt: Vec<u8> = Vec::new();
    salt.push(0x6d);
    salt.push(0x6e);
    salt.push(0x65);
    salt.push(0x6d);
    salt.push(0x6f);
    salt.push(0x6e);
    salt.push(0x69);
    salt.push(0x63);
    crate::encode::write(&mut salt, passphrase.as_bytes());
    assert(salt@ =~= mnemonic_salt(passphrase.spec_bytes()));
    pbkdf2_sha512(seed_phrase.as_bytes(), salt.as_slice(), PBKDF2_ROUNDS, PBKDF2_BYTES)
}

/// The root keypair of a seed: its first 32 bytes are the secret key.
pub fn keypair_from_seed(seed: &[u8]) -> (r: Result<Keypair, KeyError>)
    ensures
        seed@.len() < 32 ==> r == Err::<Keypair, KeyError>(KeyError::SeedTooShort),
        seed@.len() >= 32 ==> (r matches Ok(k) && k@ == keypair_of(seed@.subrange(0, 32))),
{
    if seed.len() < 32 {
        return Err(KeyError::SeedTooShort);
    }
    let mut secret: [u8; 32] = [0u8; 32];
    let mut i: usize = 0;
    while i < 32
        invariant
            i <= 32,
            seed.len() >= 32,
            forall|j: int| 0 <= j < i ==> secret@[j] == seed@[j],
        decreases 32 - i,
    {
        secret[i] = seed[i];
        i += 1;
    }
    assert(secret@ =~= seed@.subrange(0, 32));
    let public = public_key_of(&secret);
    Ok(Keypair { secret, public })
}

/// The number of the first step of `path` that is not hardened.
fn first_normal(path: &Vec<ChildIndex>) -> (r: Option<u32>)
    ensures
        r is None <==> all_hardened(path@),
        r matches Some(n) ==> exists|i: int|
            is_first_normal(path@, i) && path@[i] == ChildIndex::Normal(n),
{
    let mut i: usize = 0;
    while i < path.len()
        invariant
            i <= path.len(),
            forall|j: int| 0 <= j < i ==> path@[j] is Hardened,
        decreases path.len() - i,
    {
        match path[i] {
            ChildIndex::Normal(n) => {
                assert(is_first_normal(path@, i as int));
                return Some(n);
            },
            ChildIndex::Hardened(_) => {},
        }
        i += 1;
    }
    None
}

/// The keypair that a derivation path of hardened steps leads to from the
/// root of the key tree of `seed`.
pub fn bip32_derived_keypair(seed: &[u8], derivation_path: &Vec<ChildIndex>) -> (r: Result<
    Keypair,
    KeyError,
>)
    requires
        derivation_path@.len() <= 255,
    ensures
        r is Ok <==> all_hardened(derivation_path@),
        r matches Ok(k) ==> k@ == derived_keypair(seed@, derivation_path@),
        r matches Err(e) ==> exists|i: int|
            is_first_normal(derivation_path@, i) && e == (KeyError::ExpectedHardenedIndex {
                index: derivation_path@[i].number(),
            }),
{
    let root = match bip32_master(seed) {
        Ok(k) => k,
        Err(_) => {
            return Err(KeyError::Ed25519);
        },
    };
    match bip32_derive(&root, derivation_path) {
        Ok(child) => {
            let public = public_key_of(&child.secret_key);
            Ok(Keypair { secret: child.secret_key, public })
        },
        Err(_) => {
            match first_normal(derivation_path) {
                Some(index) => Err(KeyError::ExpectedHardenedIndex { index }),
                None => Err(KeyError::Ed25519),
            }
        },
    }
}

/// The keypair that a derivation path leads to from a seed.
pub fn keypair_from_seed_and_derivation_path(seed: &[u8], derivation_path: &Vec<ChildIndex>) -> (r:
    Result<Keypair, KeyError>)
    requires
        derivation_path@.len() <= 255,
    ensures
        r is Ok <==> all_hardened(derivation_path@),
        r matches Ok(k) ==> k@ == derived_keypair(seed@, derivation_path@),
        r matches Err(e) ==> exists|i: int|
            is_first_normal(derivation_path@, i) && e == (KeyError::ExpectedHardenedIndex {
                index: derivation_path@[i].number(),
            }),
{
    bip32_derived_keypair(seed, derivation_path)
}

/// The keypairs that a seed offers to choose from: the root keypair, then
/// the keypairs of the paths `m/44'/501'/0'/i'` for `i` from 0 to 8.
pub fn candidate_keypairs(seed: &[u8]) -> (r: Result<Vec<Keypair>, KeyError>)
    ensures
        seed@.len() < 32 ==> r == Err::<Vec<Keypair>, KeyError>(KeyError::SeedTooShort),
        seed@.len() >= 32 ==> (r matches Ok(found) && found@.map_values(|k: Keypair| k@)
            == candidates_of(seed@)),
{
    let mut keypairs: Vec<Keypair> = Vec::new();
    match keypair_from_seed(seed) {
        Ok(k) => {
            keypairs.push(k);
        },
        Err(e) => {
            return Err(e);
        },
    }
    let mut i: u32 = 0;
    while i < 9
        invariant
            i <= 9,
            seed@.len() >= 32,
            keypairs@.len() == i + 1,
            forall|k: int| 0 <= k <= i ==> (#[trigger] keypairs@[k])@ == candidates_of(seed@)[k],
        decreases 9 - i,
    {
        let mut path: Vec<ChildIndex> = Vec::new();
        path.push(ChildIndex::Hardened(44));
        path.push(ChildIndex::Hardened(501));
        path.push(ChildIndex::Hardened(0));
        path.push(ChildIndex::Hardened(i));
        assert(path@ =~= wallet_path(i));
        match keypair_from_seed_and_derivation_path(seed, &path) {
            Ok(k) => {
                keypairs.push(k);
            },
            Err(e) => {
                return Err(e);
            },
        }
        i += 1;
    }
    assert(keypairs@.map_values(|k: Keypair| k@) =~= candidates_of(seed@));
    Ok(keypairs)
}

} // verus!

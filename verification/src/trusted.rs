//! The calls into other crates. Verus takes the contracts in this file on
//! trust; each one says what the called function's source shows.

use vstd::prelude::*;
use crate::error::Base64Error;
use crate::keys::{all_hardened, path_numbers, ChildIndex, ExtendedKey, Keypair};

verus! {

#[verifier::external_type_specification]
#[verifier::external_body]
pub struct ExSignatureError(ed25519::Error);

/// `ed25519::Signature::from_bytes` on 64 bytes. It accepts the bytes if and
/// only if the three high bits of the last byte are clear (the last byte is
/// below 32), and the signature it builds then holds exactly those bytes.
#[verifier::external_body]
pub(crate) fn signature_from_bytes(bytes: &[u8; 64]) -> (r: Result<[u8; 64], ed25519::Error>)
    ensures
        r is Ok <==> bytes@[63] < 32,
        r matches Ok(b) ==> b@ == bytes@,
{
    ed25519::Signature::from_bytes(bytes).map(|s| s.to_bytes())
}

/// The base58 text of bytes, in the alphabet that `bs58` uses by default.
pub uninterp spec fn base58_text(bytes: Seq<u8>) -> Seq<char>;

/// `bs58::encode(..).into_string()`: the base58 text of `bytes`. The text
/// depends on the bytes alone.
#[verifier::external_body]
pub(crate) fn base58_string(bytes: &[u8]) -> (r: String)
    ensures
        r@ == base58_text(bytes@),
{
    bs58::encode(bytes).into_string()
}

/// The key that PBKDF2 with HMAC-SHA512 derives from a password and a salt
/// in `rounds` rounds, `len` bytes long.
pub uninterp spec fn pbkdf2_hmac_sha512(password: Seq<u8>, salt: Seq<u8>, rounds: u32, len: nat)
    -> Seq<u8>;

/// `pbkdf2::pbkdf2` with `Hmac<Sha512>`, filling a buffer of `len` bytes.
/// The key depends on the four arguments alone.
#[verifier::external_body]
pub(crate) fn pbkdf2_sha512(password: &[u8], salt: &[u8], rounds: u32, len: usize) -> (r: Vec<u8>)
    ensures
        r@ == pbkdf2_hmac_sha512(password@, salt@, rounds, len as nat),
        r@.len() == len,
{
    let mut key = vec![0u8; len];
    pbkdf2::pbkdf2::<hmac::Hmac<sha2::Sha512>>(password, salt, rounds, &mut key);
    key
}

/// The ed25519 public key that belongs to a 32-byte secret key.
pub uninterp spec fn ed25519_public_key(secret: Seq<u8>) -> Seq<u8>;

/// `ed25519_dalek::PublicKey::from(&SecretKey)`: the public key of a secret
/// key. It depends on the secret key alone.
#[verifier::external_body]
pub(crate) fn public_key_of(secret: &[u8; 32]) -> (r: [u8; 32])
    ensures
        r@ == ed25519_public_key(secret@),
{
    let secret = ed25519_dalek::SecretKey::from_bytes(secret).unwrap();
    ed25519_dalek::PublicKey::from(&secret).to_bytes()
}

/// Whether 32 bytes are the compressed form of a point of the curve, which is
/// what `ed25519_dalek::PublicKey::from_bytes` asks of them.
pub uninterp spec fn ed25519_point_valid(bytes: Seq<u8>) -> bool;

/// `ed25519_dalek::Keypair::from_bytes`. It accepts 64 bytes whose second
/// half is a point of the curve, and nothing else; the keypair then holds the
/// first half as its secret key and the second as its public key. It does
/// not ask that the two belong together.
#[verifier::external_body]
pub(crate) fn keypair_from_bytes(bytes: &[u8]) -> (r: Result<Keypair, ed25519::Error>)
    ensures
        r is Ok <==> (bytes@.len() == 64 && ed25519_point_valid(bytes@.subrange(32, 64))),
        r matches Ok(k) ==> k.secret@ == bytes@.subrange(0, 32),
        r matches Ok(k) ==> k.public@ == bytes@.subrange(32, 64),
{
    ed25519_dalek::Keypair::from_bytes(bytes).map(
        |k| Keypair { secret: k.secret.to_bytes(), public: k.public.to_bytes() },
    )
}

/// The ed25519 signature of `message` under a secret key and the public key
/// that the signer holds with it.
pub uninterp spec fn ed25519_signature(secret: Seq<u8>, public: Seq<u8>, message: Seq<u8>) -> Seq<
    u8,
>;

/// `Signer::sign` of an `ed25519_dalek::Keypair` built from the two keys by
/// `Keypair::from_bytes`. There is a signature if and only if the public key
/// is a point of the curve. It depends on the keys and the message alone,
/// and `ed25519::Signature::from_bytes` has accepted its bytes.
#[verifier::external_body]
pub(crate) fn ed25519_sign(secret: &[u8; 32], public: &[u8; 32], message: &[u8]) -> (r: Option<
    [u8; 64],
>)
    ensures
        r is Some <==> ed25519_point_valid(public@),
        r matches Some(b) ==> b@ == ed25519_signature(secret@, public@, message@) && b@[63] < 32,
{
    let bytes = [secret.as_slice(), public.as_slice()].concat();
    ed25519_dalek::Keypair::from_bytes(&bytes).ok().map(
        |k| ed25519_dalek::Signer::sign(&k, message).to_bytes(),
    )
}

/// The root of the key tree that a seed gives: its secret key and its chain
/// code.
pub uninterp spec fn bip32_master_key(seed: Seq<u8>) -> (Seq<u8>, Seq<u8>);

#[verifier::external_type_specification]
#[verifier::external_body]
pub struct ExDerivationError(ed25519_dalek_bip32::Error);

/// `ed25519_dalek_bip32::ExtendedSecretKey::from_seed`. Its source fails only
/// where a secret key is not 32 bytes long, and it always hands over 32: so
/// it succeeds on every seed. The key depends on the seed alone.
#[verifier::external_body]
pub(crate) fn bip32_master(seed: &[u8]) -> (r: Result<ExtendedKey, ed25519_dalek_bip32::Error>)
    ensures
        r is Ok,
        r matches Ok(k) ==> (k.secret_key@, k.chain_code@) == bip32_master_key(seed@),
{
    ed25519_dalek_bip32::ExtendedSecretKey::from_seed(seed).map(
        |k| ExtendedKey { secret_key: k.secret_key.to_bytes(), chain_code: k.chain_code },
    )
}

/// The key that a path of hardened indices leads to from a parent key: its
/// secret key and its chain code.
pub uninterp spec fn bip32_child_key(secret: Seq<u8>, chain: Seq<u8>, path: Seq<u32>) -> (
    Seq<u8>,
    Seq<u8>,
);

/// `ed25519_dalek_bip32::ExtendedSecretKey::derive` on a parent built from a
/// secret key and a chain code. It fails if and only if the path holds an
/// index that is not hardened; else the key depends on the parent and the
/// numbers of the path alone. A path of more than 255 steps overflows the
/// depth that the outside type counts in a byte.
#[verifier::external_body]
pub(crate) fn bip32_derive(parent: &ExtendedKey, path: &Vec<ChildIndex>) -> (r: Result<
    ExtendedKey,
    ed25519_dalek_bip32::Error,
>)
    requires
        path@.len() <= 255,
    ensures
        r is Ok <==> all_hardened(path@),
        r matches Ok(k) ==> (k.secret_key@, k.chain_code@)
            == bip32_child_key(parent.secret_key@, parent.chain_code@, path_numbers(path@)),
{
    let parent = ed25519_dalek_bip32::ExtendedSecretKey {
        depth: 0,
        child_index: derivation_path::ChildIndex::Normal(0),
        secret_key: ed25519_dalek::SecretKey::from_bytes(&parent.secret_key).unwrap(),
        chain_code: parent.chain_code,
    };
    let steps: Vec<derivation_path::ChildIndex> = path.iter().map(|c| match c {
        ChildIndex::Hardened(n) => derivation_path::ChildIndex::Hardened(*n),
        ChildIndex::Normal(n) => derivation_path::ChildIndex::Normal(*n),
    }).collect();
    parent.derive(&steps).map(
        |k| ExtendedKey { secret_key: k.secret_key.to_bytes(), chain_code: k.chain_code },
    )
}

/// The base64 text of bytes, in the standard alphabet with padding.
pub uninterp spec fn base64_text(bytes: Seq<u8>) -> Seq<char>;

/// `base64::encode`: the base64 text of `bytes`. The text depends on the
/// bytes alone.
#[verifier::external_body]
pub(crate) fn base64_string(bytes: &[u8]) -> (r: String)
    ensures
        r@ == base64_text(bytes@),
{
    base64::encode(bytes)
}

/// The bytes that a base64 text stands for, or why it stands for none.
pub uninterp spec fn base64_decoded(text: Seq<char>) -> Result<Seq<u8>, Base64Error>;

/// An outcome with its bytes as a sequence.
pub open spec fn bytes_outcome(r: Result<Vec<u8>, Base64Error>) -> Result<Seq<u8>, Base64Error> {
    match r {
        Ok(bytes) => Ok(bytes@),
        Err(e) => Err(e),
    }
}

/// `base64::decode`: the bytes that `text` stands for. The outcome depends
/// on the text alone.
#[verifier::external_body]
pub(crate) fn base64_bytes(text: &str) -> (r: Result<Vec<u8>, Base64Error>)
    ensures
        bytes_outcome(r) == base64_decoded(text@),
{
    base64::decode(text).map_err(|e| match e {
        base64::DecodeError::InvalidByte(at, byte) => Base64Error::InvalidByte(at, byte),
        base64::DecodeError::InvalidLength => Base64Error::InvalidLength,
        base64::DecodeError::InvalidLastSymbol(at, byte) => {
            Base64Error::InvalidLastSymbol(at, byte)
        },
    })
}

} // verus!

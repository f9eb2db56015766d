//! The keys at hand, and signing a transaction with them.
//!
//! A keyring holds keypairs in the order in which they came, at most one for
//! each base58 text of a public key: it is a mapping from that text to the
//! keypair.

use vstd::prelude::*;
use crate::error::EncodeError;
use crate::keys::{Keypair, KeypairView};
use crate::model::{Pubkey, Signature, Transaction, TransactionView};
use crate::order::none_needed_means_complete;
use crate::signing::key_views;
use crate::trusted::{base58_text, ed25519_point_valid, ed25519_signature};

verus! {

/// Whether the public key of `entry` has the base58 text of `key`.
pub open spec fn is_entry_of(entry: KeypairView, key: Seq<u8>) -> bool {
    base58_text(entry.public) == base58_text(key)
}

/// The position of the first of `entries` that is an entry of `key`.
pub open spec fn position_of(entries: Seq<KeypairView>, key: Seq<u8>) -> Option<int>
    decreases entries.len(),
{
    if entries.len() == 0 {
        None
    } else {
        match position_of(entries.drop_last(), key) {
            Some(i) => Some(i),
            None => if is_entry_of(entries.last(), key) {
                Some(entries.len() - 1)
            } else {
                None
            },
        }
    }
}

/// What a position found says: it holds an entry of the key, and no earlier
/// position does; and where none is found, no position holds one.
pub proof fn position_of_meaning(entries: Seq<KeypairView>, key: Seq<u8>)
    ensures
        match position_of(entries, key) {
            Some(i) => 0 <= i < entries.len() && is_entry_of(entries[i], key) && forall|j: int|
                0 <= j < i ==> !is_entry_of(entries[j], key),
            None => forall|j: int| 0 <= j < entries.len() ==> !is_entry_of(entries[j], key),
        },
    decreases entries.len(),
{
    if entries.len() > 0 {
        position_of_meaning(entries.drop_last(), key);
        assert(forall|j: int| 0 <= j < entries.len() - 1 ==> entries.drop_last()[j] == entries[j]);
    }
}

/// Whether no two of `entries` have public keys with the same base58 text.
pub open spec fn distinct_entries(entries: Seq<KeypairView>) -> bool {
    forall|i: int, j: int|
        0 <= i < j < entries.len() ==> !#[trigger] is_entry_of(entries[i], entries[j].public)
}

/// The keypairs at hand.
#[derive(Debug, PartialEq, Eq)]
pub struct Keyring {
    entries: Vec<Keypair>,
}

impl View for Keyring {
    type V = Seq<KeypairView>;

    closed spec fn view(&self) -> Seq<KeypairView> {
        self.entries@.map_values(|k: Keypair| k@)
    }
}

impl Keyring {
    #[verifier::type_invariant]
    spec fn well_formed(self) -> bool {
        distinct_entries(self@)
    }

    /// A keyring without keys.
    pub fn new() -> (r: Keyring)
        ensures
            r@ == Seq::<KeypairView>::empty(),
    {
        let r = Keyring { entries: Vec::new() };
        assert(r@ =~= Seq::<KeypairView>::empty());
        r
    }

    /// The number of keypairs.
    pub fn len(&self) -> (r: usize)
        ensures
            r == self@.len(),
            distinct_entries(self@),
    {
        proof {
            use_type_invariant(self);
        }
        self.entries.len()
    }

    /// The position of the keypair for `key`.
    fn find(&self, key: &Pubkey) -> (r: Option<usize>)
        ensures
            match position_of(self@, key@) {
                Some(i) => r matches Some(p) && p == i && p < self.entries@.len(),
                None => r is None,
            },
    {
        let wanted = key.to_string();
        let mut i: usize = 0;
        assert(self@.take(0) =~= Seq::<KeypairView>::empty());
        while i < self.entries.len()
            invariant
                i <= self.entries.len(),
                wanted@ == base58_text(key@),
                position_of(self@.take(i as int), key@) is None,
            decreases self.entries.len() - i,
        {
            let text = self.entries[i].pubkey().to_string();
            assert(self@.take(i + 1).drop_last() =~= self@.take(i as int));
            assert(self@.take(i + 1).last() == self.entries@[i as int]@);
            if text == wanted {
                proof {
                    position_found_stays(self@, key@, (i + 1) as nat);
                }
                return Some(i);
            }
            i += 1;
        }
        assert(self@.take(self.entries@.len() as int) =~= self@);
        None
    }

    /// The keypair for `key`: the one whose public key has the same base58
    /// text.
    pub fn get(&self, key: &Pubkey) -> (r: Option<Keypair>)
        ensures
            match position_of(self@, key@) {
                Some(i) => r matches Some(k) && k@ == self@[i],
                None => r is None,
            },
    {
        match self.find(key) {
            Some(i) => Some(self.entries[i]),
            None => None,
        }
    }

    /// Takes a keypair in. Where the keyring has one with the same public
    /// key text, the new one takes its place; else it comes last. Tells
    /// whether the key is new.
    pub fn insert(&mut self, keypair: Keypair) -> (fresh: bool)
        ensures
            match position_of(old(self)@, keypair@.public) {
                Some(i) => !fresh && final(self)@ == old(self)@.update(i, keypair@),
                None => fresh && final(self)@ == old(self)@.push(keypair@),
            },
    {
        proof {
            use_type_invariant(&*self);
            position_of_meaning(self@, keypair@.public);
        }
        let ghost before = self@;
        let found = self.find(&keypair.pubkey());
        let mut entries: Vec<Keypair> = Vec::new();
        let mut i: usize = 0;
        while i < self.entries.len()
            invariant
                i <= self.entries.len(),
                before == self@,
                entries@.len() == i,
                forall|j: int|
                    0 <= j < i ==> #[trigger] entries@[j] == (if found == Some(j as usize) {
                        keypair
                    } else {
                        self.entries@[j]
                    }),
            decreases self.entries.len() - i,
        {
            let entry = match found {
                Some(p) if p == i => keypair,
                _ => self.entries[i],
            };
            entries.push(entry);
            i += 1;
        }
        if found.is_none() {
            entries.push(keypair);
        }
        let ghost after = entries@.map_values(|k: Keypair| k@);
        proof {
            match found {
                Some(p) => {
                    assert(after =~= before.update(p as int, keypair@));
                    assert forall|a: int, b: int|
                        0 <= a < b < after.len() implies !#[trigger] is_entry_of(
                        after[a],
                        after[b].public,
                    ) by {
                        assert(!is_entry_of(before[a], before[b].public));
                    }
                },
                None => {
                    assert(after =~= before.push(keypair@));
                    assert forall|a: int, b: int|
                        0 <= a < b < after.len() implies !#[trigger] is_entry_of(
                        after[a],
                        after[b].public,
                    ) by {
                        if b < before.len() {
                            assert(!is_entry_of(before[a], before[b].public));
                        }
                    }
                },
            }
        }
        *self = Keyring { entries };
        found.is_none()
    }

    /// The public keys in the order in which they came.
    pub fn public_keys(&self) -> (r: Vec<Pubkey>)
        ensures
            key_views(r@) == self@.map_values(|k: KeypairView| k.public),
    {
        let mut keys: Vec<Pubkey> = Vec::new();
        let mut i: usize = 0;
        while i < self.entries.len()
            invariant
                i <= self.entries.len(),
                keys@.len() == i,
                forall|j: int| 0 <= j < i ==> (#[trigger] keys@[j])@ == self.entries@[j]@.public,
            decreases self.entries.len() - i,
        {
            keys.push(self.entries[i].pubkey());
            i += 1;
        }
        assert(key_views(keys@) =~= self@.map_values(|k: KeypairView| k.public));
        keys
    }
}

/// A position found among the first `n` entries is the position found among
/// all of them.
pub proof fn position_found_stays(entries: Seq<KeypairView>, key: Seq<u8>, n: nat)
    requires
        n <= entries.len(),
        position_of(entries.take(n as int), key) is Some,
    ensures
        position_of(entries, key) == position_of(entries.take(n as int), key),
    decreases entries.len() - n,
{
    if n < entries.len() {
        assert(entries.take(n as int + 1).drop_last() =~= entries.take(n as int));
        position_found_stays(entries, key, n + 1);
    } else {
        assert(entries.take(n as int) =~= entries);
    }
}

/// The signature that the keyring gives for `key` on `message`: that of the
/// keypair for `key`, where there is one and its public key is a point of
/// the curve.
pub open spec fn signature_for(ring: Seq<KeypairView>, key: Seq<u8>, message: Seq<u8>) -> Option<
    Seq<u8>,
> {
    match position_of(ring, key) {
        Some(i) => if ed25519_point_valid(ring[i].public) {
            Some(ed25519_signature(ring[i].secret, ring[i].public, message))
        } else {
            None
        },
        None => None,
    }
}

/// The transaction after the keyring has signed `message` for the first `n`
/// of the keys `needed`, one after another.
pub open spec fn signed_with(
    tx: TransactionView,
    ring: Seq<KeypairView>,
    needed: Seq<Seq<u8>>,
    n: nat,
    message: Seq<u8>,
) -> TransactionView
    decreases n,
{
    if n == 0 {
        tx
    } else {
        let before = signed_with(tx, ring, needed, (n - 1) as nat, message);
        match signature_for(ring, needed[n - 1], message) {
            Some(signature) => before.signed_by(needed[n - 1], signature),
            None => before,
        }
    }
}

/// How far a transaction has come.
#[derive(Debug, Clone, PartialEq, Eq)]
pub enum Completion {
    /// Every slot is signed: the signature of the fee payer, and the encoded
    /// transaction.
    Complete { signature: Signature, transaction: Vec<u8> },
    /// Some slots wait for a signature: the keys that have to sign, and the
    /// encoded transaction to hand on.
    Partial { outstanding: Vec<Pubkey>, transaction: Vec<u8> },
}

impl Transaction {
    /// Signs the message of the transaction with every key of the keyring
    /// that a slot still waits for, and gives the keys that still have to
    /// sign afterwards. Where the message cannot be written nothing is
    /// signed.
    pub fn sign_with_keys(&mut self, keys: &Keyring) -> (r: Result<Vec<Pubkey>, EncodeError>)
        ensures
            match old(self)@.message_bytes() {
                Err(fault) => r matches Err(e) && e@ == fault && final(self)@ == old(self)@,
                Ok(message) => r matches Ok(outstanding) && final(self)@ == signed_with(
                    old(self)@,
                    keys@,
                    old(self)@.needed_signatures(),
                    old(self)@.needed_signatures().len(),
                    message,
                ) && key_views(outstanding@) == final(self)@.needed_signatures(),
            },
    {
        let message = match self.message() {
            Ok(m) => m,
            Err(e) => {
                return Err(e);
            },
        };
        let needed = self.needed_signatures();
        let ghost start = self@;
        let mut i: usize = 0;
        while i < needed.len()
            invariant
                i <= needed.len(),
                self@ == signed_with(start, keys@, key_views(needed@), i as nat, message@),
            decreases needed.len() - i,
        {
            let key = needed[i];
            assert(key_views(needed@)[i as int] == key@);
            match keys.get(&key) {
                Some(keypair) => {
                    match keypair.sign(message.as_slice()) {
                        Some(signature) => {
                            let _ = self.sign(&key, signature);
                        },
                        None => {},
                    }
                },
                None => {},
            }
            i += 1;
        }
        Ok(self.needed_signatures())
    }

    /// Encodes the transaction and tells how far it has come: it is complete
    /// where no key has to sign any more, and then the signature of the fee
    /// payer, the first signed writable slot, stands for it. A complete
    /// transaction must have a fee payer.
    pub fn completion(&self) -> (r: Result<Completion, EncodeError>)
        requires
            self@.complete() ==> self@.signed_read_write.len() >= 1,
        ensures
            match self@.encoded_bytes() {
                Err(fault) => r matches Err(e) && e@ == fault,
                Ok(bytes) => r matches Ok(found) && match found {
                    Completion::Complete { signature, transaction } => self@.complete()
                        && Some(signature@) == self@.signed_read_write[0].signature
                        && transaction@ == bytes,
                    Completion::Partial { outstanding, transaction } => !self@.complete()
                        && key_views(outstanding@) == self@.needed_signatures()
                        && transaction@ == bytes,
                },
            },
    {
        let transaction = match self.encode() {
            Ok(bytes) => bytes,
            Err(e) => {
                return Err(e);
            },
        };
        let outstanding = self.needed_signatures();
        proof {
            none_needed_means_complete(self@);
        }
        if outstanding.len() == 0 {
            assert(self@.slots()[0] == self@.signed_read_write[0]);
            match self.signed_read_write_addresses[0].signature {
                Some(signature) => Ok(Completion::Complete { signature, transaction }),
                None => Ok(Completion::Partial { outstanding, transaction }),
            }
        } else {
            Ok(Completion::Partial { outstanding, transaction })
        }
    }
}

} // verus!

//! Which slots still wait for a signature, and attaching one.

use vstd::prelude::*;
use vstd::utf8::encode_utf8;
use crate::model::{
    same_identity, Pubkey, PubkeyWithSignature, Signature, SlotView, Transaction, TransactionView,
};
use crate::trusted::{base58_string, base58_text};

verus! {

/// Whether `a` comes before `b` or equals it from position `i` on, byte by
/// byte; where one ends first, the shorter comes first.
pub open spec fn bytes_le_from(a: Seq<u8>, b: Seq<u8>, i: int) -> bool
    decreases a.len() - i,
{
    if i < 0 || i >= a.len() {
        true
    } else if i >= b.len() {
        false
    } else if a[i] != b[i] {
        a[i] < b[i]
    } else {
        bytes_le_from(a, b, i + 1)
    }
}

/// The order of strings: that of their UTF-8 bytes, byte by byte.
pub open spec fn text_le(a: Seq<char>, b: Seq<char>) -> bool {
    bytes_le_from(encode_utf8(a), encode_utf8(b), 0)
}

/// Whether key `a` may stand before key `b`: its base58 text is not behind
/// that of `b`.
pub open spec fn key_le(a: Seq<u8>, b: Seq<u8>) -> bool {
    text_le(base58_text(a), base58_text(b))
}

/// `sorted` with `key` put behind the last key that may stand before it.
pub open spec fn insert_by_text(sorted: Seq<Seq<u8>>, key: Seq<u8>) -> Seq<Seq<u8>>
    decreases sorted.len(),
{
    if sorted.len() == 0 {
        seq![key]
    } else if key_le(sorted.last(), key) {
        sorted.push(key)
    } else {
        insert_by_text(sorted.drop_last(), key).push(sorted.last())
    }
}

/// `keys` in the order of their base58 texts; keys with the same text keep
/// their order.
pub open spec fn sort_by_text(keys: Seq<Seq<u8>>) -> Seq<Seq<u8>>
    decreases keys.len(),
{
    if keys.len() == 0 {
        Seq::empty()
    } else {
        insert_by_text(sort_by_text(keys.drop_last()), keys.last())
    }
}

/// `keys` with each run of equal neighbours cut down to its first key.
pub open spec fn dedup(keys: Seq<Seq<u8>>) -> Seq<Seq<u8>>
    decreases keys.len(),
{
    if keys.len() == 0 {
        Seq::empty()
    } else {
        let front = dedup(keys.drop_last());
        if front.len() > 0 && front.last() == keys.last() {
            front
        } else {
            front.push(keys.last())
        }
    }
}

/// The keys of the slots among the first `n` of `slots` that have no
/// signature, in slot order.
pub open spec fn open_keys(slots: Seq<SlotView>, n: nat) -> Seq<Seq<u8>>
    decreases n,
{
    if n == 0 {
        Seq::empty()
    } else if slots[n - 1].signature is None {
        open_keys(slots, (n - 1) as nat).push(slots[n - 1].pubkey)
    } else {
        open_keys(slots, (n - 1) as nat)
    }
}

/// Each slot of `slots` whose key is `key` gets the signature `signature`.
pub open spec fn sign_slots(slots: Seq<SlotView>, key: Seq<u8>, signature: Seq<u8>) -> Seq<
    SlotView,
> {
    slots.map_values(
        |s: SlotView|
            if s.pubkey == key {
                SlotView { pubkey: s.pubkey, signature: Some(signature) }
            } else {
                s
            },
    )
}

impl TransactionView {
    /// The keys that still have to sign: those of the slots without a
    /// signature, ordered by base58 text, without neighbours that repeat.
    pub open spec fn needed_signatures(self) -> Seq<Seq<u8>> {
        dedup(sort_by_text(open_keys(self.slots(), self.slots().len())))
    }

    /// The transaction after `key` has signed with `signature`: every slot
    /// of `key`, in either signed partition, holds `signature`.
    pub open spec fn signed_by(self, key: Seq<u8>, signature: Seq<u8>) -> TransactionView {
        TransactionView {
            signed_read_write: sign_slots(self.signed_read_write, key, signature),
            signed_read_only: sign_slots(self.signed_read_only, key, signature),
            ..self
        }
    }

    /// Whether no slot waits for a signature.
    pub open spec fn complete(self) -> bool {
        forall|i: int| 0 <= i < self.slots().len() ==> self.slots()[i].signature is Some
    }
}

/// The views of keys.
pub open spec fn key_views(keys: Seq<Pubkey>) -> Seq<Seq<u8>> {
    keys.map_values(|k: Pubkey| k@)
}

/// Tells whether `a` comes before `b` or equals it, byte by byte.
pub fn bytes_le(a: &[u8], b: &[u8]) -> (r: bool)
    ensures
        r == bytes_le_from(a@, b@, 0),
{
    let mut i: usize = 0;
    while i < a.len()
        invariant
            i <= a.len(),
            bytes_le_from(a@, b@, 0) == bytes_le_from(a@, b@, i as int),
        decreases a.len() - i,
    {
        if i >= b.len() {
            return false;
        }
        if a[i] != b[i] {
            return a[i] < b[i];
        }
        i += 1;
    }
    true
}

/// Tells whether key `a` may stand before key `b` in the base58 order.
pub fn key_before_or_same(a: &Pubkey, b: &Pubkey) -> (r: bool)
    ensures
        r == key_le(a@, b@),
{
    let ta = base58_string(a.0.as_slice());
    let tb = base58_string(b.0.as_slice());
    bytes_le(ta.as_str().as_bytes(), tb.as_str().as_bytes())
}

/// Putting `key` at `p` is what `insert_by_text` does, where every key from
/// `p` on must stand behind `key` and the key before `p`, if there is one,
/// may stand before it.
proof fn insert_at(sorted: Seq<Seq<u8>>, key: Seq<u8>, p: int)
    requires
        0 <= p <= sorted.len(),
        forall|j: int| p <= j < sorted.len() ==> !key_le(sorted[j], key),
        p > 0 ==> key_le(sorted[p - 1], key),
    ensures
        insert_by_text(sorted, key) == sorted.insert(p, key),
    decreases sorted.len() - p,
{
    if sorted.len() == 0 {
        assert(sorted.insert(p, key) =~= seq![key]);
    } else if p == sorted.len() {
        assert(sorted.insert(p, key) =~= sorted.push(key));
    } else {
        assert(!key_le(sorted.last(), key));
        insert_at(sorted.drop_last(), key, p);
        assert(sorted.drop_last().insert(p, key).push(sorted.last()) =~= sorted.insert(p, key));
    }
}

impl Transaction {
    /// Puts the keys of the slots of `slots` that have no signature into
    /// `keys`, each at its place in the base58 order.
    fn collect_open(slots: &Vec<PubkeyWithSignature>, keys: &mut Vec<Pubkey>, Ghost(
        before,
    ): Ghost<Seq<SlotView>>)
        requires
            key_views(old(keys)@) == sort_by_text(open_keys(before, before.len())),
        ensures
            key_views(final(keys)@) == sort_by_text(
                open_keys(
                    before + slots@.map_values(|s: PubkeyWithSignature| s@),
                    before.len() + slots@.len(),
                ),
            ),
    {
        let ghost all = before + slots@.map_values(|s: PubkeyWithSignature| s@);
        let mut i: usize = 0;
        proof {
            open_keys_prefix(before, all, before.len());
        }
        while i < slots.len()
            invariant
                i <= slots.len(),
                all == before + slots@.map_values(|s: PubkeyWithSignature| s@),
                key_views(keys@) == sort_by_text(open_keys(all, (before.len() + i) as nat)),
            decreases slots.len() - i,
        {
            assert(all[before.len() + i] == slots@[i as int]@);
            if slots[i].signature.is_none() {
                let key = slots[i].pubkey;
                let ghost sorted = key_views(keys@);
                let mut p: usize = keys.len();
                while p > 0 && !key_before_or_same(&keys[p - 1], &key)
                    invariant
                        p <= keys.len(),
                        sorted == key_views(keys@),
                        forall|j: int| p <= j < sorted.len() ==> !key_le(sorted[j], key@),
                    decreases p,
                {
                    p -= 1;
                }
                proof {
                    insert_at(sorted, key@, p as int);
                    let open = open_keys(all, (before.len() + i) as nat);
                    assert(open_keys(all, (before.len() + i + 1) as nat) == open.push(key@));
                    assert(open.push(key@).drop_last() =~= open);
                }
                keys.insert(p, key);
                assert(key_views(keys@) =~= sorted.insert(p as int, key@));
            }
            i += 1;
        }
    }

    /// The keys that still have to sign: those of the slots of both signed
    /// partitions that hold no signature, ordered by their base58 text, and
    /// without neighbours that repeat. The transaction is not changed.
    pub fn needed_signatures(&self) -> (r: Vec<Pubkey>)
        ensures
            key_views(r@) == self@.needed_signatures(),
            crate::order::sorted_by_text(key_views(r@)),
            crate::order::no_neighbours_repeat(key_views(r@)),
            forall|k: Seq<u8>|
                crate::order::among(key_views(r@), k) <==> crate::order::waits_for(
                    self@.slots(),
                    k,
                ),
    {
        proof {
            self@.needed_signatures_are_sorted_and_exact();
        }
        let ghost first = self@.signed_read_write;
        let mut keys: Vec<Pubkey> = Vec::new();
        assert(key_views(keys@) =~= Seq::empty());
        Self::collect_open(&self.signed_read_write_addresses, &mut keys, Ghost(Seq::empty()));
        assert(Seq::<SlotView>::empty() + first =~= first);
        Self::collect_open(&self.signed_read_only_addresses, &mut keys, Ghost(first));
        let ghost sorted = key_views(keys@);
        let mut out: Vec<Pubkey> = Vec::new();
        let mut i: usize = 0;
        assert(key_views(out@) =~= Seq::empty());
        assert(sorted.take(0) =~= Seq::empty());
        while i < keys.len()
            invariant
                i <= keys.len(),
                sorted == key_views(keys@),
                key_views(out@) == dedup(sorted.take(i as int)),
            decreases keys.len() - i,
        {
            let ghost front = key_views(out@);
            assert(sorted.take(i + 1).drop_last() =~= sorted.take(i as int));
            let repeats = out.len() > 0 && same_identity(&out[out.len() - 1].0, &keys[i].0);
            if !repeats {
                out.push(keys[i]);
                assert(key_views(out@) =~= front.push(sorted[i as int]));
            }
            i += 1;
        }
        assert(sorted.take(keys.len() as int) =~= sorted);
        out
    }

    /// Attaches `signature` to every slot, in either signed partition, whose
    /// key is `pubkey`. A signature that a slot held before is replaced.
    pub fn sign(&mut self, pubkey: &Pubkey, signature: Signature) -> (r: Result<(), String>)
        ensures
            r is Ok,
            final(self)@ == old(self)@.signed_by(pubkey@, signature@),
            final(self)@.message_bytes() == old(self)@.message_bytes(),
    {
        proof {
            crate::laws::signing_keeps_the_message(old(self)@, pubkey@, signature@);
        }
        let n0 = self.signed_read_write_addresses.len();
        let mut i: usize = 0;
        while i < n0
            invariant
                i <= n0,
                n0 == self.signed_read_write_addresses.len(),
                n0 == old(self).signed_read_write_addresses.len(),
                self.signed_read_only_addresses == old(self).signed_read_only_addresses,
                self.unsigned_read_write_addresses == old(self).unsigned_read_write_addresses,
                self.unsigned_read_only_addresses == old(self).unsigned_read_only_addresses,
                self.recent_blockhash == old(self).recent_blockhash,
                self.instructions == old(self).instructions,
                forall|k: int|
                    0 <= k < i ==> (#[trigger] self.signed_read_write_addresses@[k])@
                        == sign_slots(old(self)@.signed_read_write, pubkey@, signature@)[k],
                forall|k: int|
                    i <= k < n0 ==> #[trigger] self.signed_read_write_addresses@[k] == old(
                        self,
                    ).signed_read_write_addresses@[k],
            decreases n0 - i,
        {
            if same_identity(&self.signed_read_write_addresses[i].pubkey.0, &pubkey.0) {
                let slot = PubkeyWithSignature {
                    pubkey: self.signed_read_write_addresses[i].pubkey,
                    signature: Some(signature),
                };
                self.signed_read_write_addresses[i] = slot;
            }
            i += 1;
        }
        let n1 = self.signed_read_only_addresses.len();
        let mut i: usize = 0;
        while i < n1
            invariant
                i <= n1,
                n1 == self.signed_read_only_addresses.len(),
                n1 == old(self).signed_read_only_addresses.len(),
                self@.signed_read_write == sign_slots(
                    old(self)@.signed_read_write,
                    pubkey@,
                    signature@,
                ),
                self.unsigned_read_write_addresses == old(self).unsigned_read_write_addresses,
                self.unsigned_read_only_addresses == old(self).unsigned_read_only_addresses,
                self.recent_blockhash == old(self).recent_blockhash,
                self.instructions == old(self).instructions,
                forall|k: int|
                    0 <= k < i ==> (#[trigger] self.signed_read_only_addresses@[k])@
                        == sign_slots(old(self)@.signed_read_only, pubkey@, signature@)[k],
                forall|k: int|
                    i <= k < n1 ==> #[trigger] self.signed_read_only_addresses@[k] == old(
                        self,
                    ).signed_read_only_addresses@[k],
            decreases n1 - i,
        {
            if same_identity(&self.signed_read_only_addresses[i].pubkey.0, &pubkey.0) {
                let slot = PubkeyWithSignature {
                    pubkey: self.signed_read_only_addresses[i].pubkey,
                    signature: Some(signature),
                };
                self.signed_read_only_addresses[i] = slot;
            }
            i += 1;
        }
        assert(self@.signed_read_only =~= sign_slots(
            old(self)@.signed_read_only,
            pubkey@,
            signature@,
        ));
        Ok(())
    }
}

/// The open keys among the first `n` slots do not depend on what follows.
proof fn open_keys_prefix(a: Seq<SlotView>, b: Seq<SlotView>, n: nat)
    requires
        n <= a.len(),
        n <= b.len(),
        forall|i: int| 0 <= i < n ==> a[i] == b[i],
    ensures
        open_keys(a, n) == open_keys(b, n),
    decreases n,
{
    if n > 0 {
        open_keys_prefix(a, b, (n - 1) as nat);
    }
}

} // verus!

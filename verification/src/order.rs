//! What holds of the keys that still have to sign: their order, and which
//! they are.

use vstd::prelude::*;
use crate::model::{SlotView, TransactionView};
use crate::signing::{
    bytes_le_from, dedup, insert_by_text, key_le, open_keys, sign_slots, sort_by_text,
};

verus! {

/// Of two byte strings one comes before the other or equals it.
pub proof fn bytes_order_is_total(a: Seq<u8>, b: Seq<u8>, i: int)
    requires
        0 <= i,
    ensures
        bytes_le_from(a, b, i) || bytes_le_from(b, a, i),
    decreases a.len() - i,
{
    if i < a.len() && i < b.len() && a[i] == b[i] {
        bytes_order_is_total(a, b, i + 1);
    }
}

/// What comes before something that comes before a third comes before the
/// third.
pub proof fn bytes_order_is_transitive(a: Seq<u8>, b: Seq<u8>, c: Seq<u8>, i: int)
    requires
        0 <= i,
        bytes_le_from(a, b, i),
        bytes_le_from(b, c, i),
    ensures
        bytes_le_from(a, c, i),
    decreases a.len() - i,
{
    if i < a.len() && a[i] == b[i] && b[i] == c[i] {
        bytes_order_is_transitive(a, b, c, i + 1);
    }
}

/// Two byte strings each of which comes before the other or equals it are
/// equal.
pub proof fn bytes_order_is_antisymmetric(a: Seq<u8>, b: Seq<u8>, i: int)
    requires
        0 <= i <= a.len(),
        i <= b.len(),
        bytes_le_from(a, b, i),
        bytes_le_from(b, a, i),
    ensures
        a.len() == b.len(),
        forall|k: int| i <= k < a.len() ==> a[k] == b[k],
    decreases a.len() - i,
{
    if i < a.len() {
        bytes_order_is_antisymmetric(a, b, i + 1);
    }
}

/// Two keys each of which may stand before the other have the same base58
/// text.
pub proof fn key_order_ties_on_equal_texts(a: Seq<u8>, b: Seq<u8>)
    requires
        key_le(a, b),
        key_le(b, a),
    ensures
        crate::trusted::base58_text(a) == crate::trusted::base58_text(b),
{
    let ta = crate::trusted::base58_text(a);
    let tb = crate::trusted::base58_text(b);
    bytes_order_is_antisymmetric(vstd::utf8::encode_utf8(ta), vstd::utf8::encode_utf8(tb), 0);
    assert(vstd::utf8::encode_utf8(ta) =~= vstd::utf8::encode_utf8(tb));
    vstd::utf8::encode_utf8_decode_utf8(ta);
    vstd::utf8::encode_utf8_decode_utf8(tb);
}

/// Of two keys one may stand before the other.
pub proof fn key_order_is_total(a: Seq<u8>, b: Seq<u8>)
    ensures
        key_le(a, b) || key_le(b, a),
{
    bytes_order_is_total(
        vstd::utf8::encode_utf8(crate::trusted::base58_text(a)),
        vstd::utf8::encode_utf8(crate::trusted::base58_text(b)),
        0,
    );
}

/// The order of keys is transitive.
pub proof fn key_order_is_transitive(a: Seq<u8>, b: Seq<u8>, c: Seq<u8>)
    requires
        key_le(a, b),
        key_le(b, c),
    ensures
        key_le(a, c),
{
    bytes_order_is_transitive(
        vstd::utf8::encode_utf8(crate::trusted::base58_text(a)),
        vstd::utf8::encode_utf8(crate::trusted::base58_text(b)),
        vstd::utf8::encode_utf8(crate::trusted::base58_text(c)),
        0,
    );
}

/// Whether each key of `keys` may stand before every later one.
pub open spec fn sorted_by_text(keys: Seq<Seq<u8>>) -> bool {
    forall|i: int, j: int|
        0 <= i < j < keys.len() ==> key_le(#[trigger] keys[i], #[trigger] keys[j])
}

/// Whether no key of `keys` equals its neighbour.
pub open spec fn no_neighbours_repeat(keys: Seq<Seq<u8>>) -> bool {
    forall|i: int| 0 <= i < keys.len() - 1 ==> #[trigger] keys[i] != keys[i + 1]
}

/// Whether `key` is among `keys`.
pub open spec fn among(keys: Seq<Seq<u8>>, key: Seq<u8>) -> bool {
    exists|i: int| 0 <= i < keys.len() && keys[i] == key
}

/// Whether some slot of `key` has no signature.
pub open spec fn waits_for(slots: Seq<SlotView>, key: Seq<u8>) -> bool {
    exists|i: int|
        0 <= i < slots.len() && (#[trigger] slots[i]).pubkey == key && slots[i].signature is None
}

/// What a run holds after a key was put in: the key, and what it held.
pub proof fn insert_members(sorted: Seq<Seq<u8>>, key: Seq<u8>, k: Seq<u8>)
    ensures
        among(insert_by_text(sorted, key), k) <==> (k == key || among(sorted, k)),
        insert_by_text(sorted, key).len() == sorted.len() + 1,
    decreases sorted.len(),
{
    let r = insert_by_text(sorted, key);
    if sorted.len() == 0 {
        assert(r[0] == key);
    } else if key_le(sorted.last(), key) {
        assert(r[sorted.len() as int] == key);
        if among(sorted, k) {
            let i = choose|i: int| 0 <= i < sorted.len() && sorted[i] == k;
            assert(r[i] == k);
        }
        if among(r, k) {
            let i = choose|i: int| 0 <= i < r.len() && r[i] == k;
            if i < sorted.len() {
                assert(sorted[i] == k);
            }
        }
    } else {
        let front = sorted.drop_last();
        let inner = insert_by_text(front, key);
        insert_members(front, key, k);
        if among(r, k) {
            let i = choose|i: int| 0 <= i < r.len() && r[i] == k;
            if i < inner.len() {
                assert(inner[i] == k);
                assert(among(inner, k));
                if k != key {
                    let m = choose|m: int| 0 <= m < front.len() && front[m] == k;
                    assert(sorted[m] == k);
                }
            } else {
                assert(sorted[sorted.len() - 1] == k);
            }
        }
        if k == key {
            let m = choose|m: int| 0 <= m < inner.len() && inner[m] == k;
            assert(r[m] == k);
        } else if among(sorted, k) {
            let i = choose|i: int| 0 <= i < sorted.len() && sorted[i] == k;
            if i < front.len() {
                assert(front[i] == k);
                assert(among(front, k));
                let m = choose|m: int| 0 <= m < inner.len() && inner[m] == k;
                assert(r[m] == k);
            } else {
                assert(r[inner.len() as int] == k);
            }
        }
    }
}

/// A run without its last key is sorted where the run is.
pub proof fn front_is_sorted(keys: Seq<Seq<u8>>)
    requires
        sorted_by_text(keys),
        keys.len() > 0,
    ensures
        sorted_by_text(keys.drop_last()),
{
    let front = keys.drop_last();
    assert forall|i: int, j: int| 0 <= i < j < front.len() implies key_le(
        #[trigger] front[i],
        #[trigger] front[j],
    ) by {
        assert(key_le(keys[i], keys[j]));
    }
}

/// Putting a key into a sorted run gives a sorted run.
pub proof fn insert_keeps_order(sorted: Seq<Seq<u8>>, key: Seq<u8>)
    requires
        sorted_by_text(sorted),
    ensures
        sorted_by_text(insert_by_text(sorted, key)),
    decreases sorted.len(),
{
    let r = insert_by_text(sorted, key);
    if sorted.len() == 0 {
    } else if key_le(sorted.last(), key) {
        assert forall|i: int, j: int| 0 <= i < j < r.len() implies key_le(
            #[trigger] r[i],
            #[trigger] r[j],
        ) by {
            if j == sorted.len() {
                if i < sorted.len() - 1 {
                    assert(key_le(sorted[i], sorted[sorted.len() - 1]));
                    key_order_is_transitive(sorted[i], sorted.last(), key);
                }
            } else {
                assert(key_le(sorted[i], sorted[j]));
            }
        }
    } else {
        let front = sorted.drop_last();
        let inner = insert_by_text(front, key);
        front_is_sorted(sorted);
        insert_keeps_order(front, key);
        key_order_is_total(sorted.last(), key);
        assert forall|i: int, j: int| 0 <= i < j < r.len() implies key_le(
            #[trigger] r[i],
            #[trigger] r[j],
        ) by {
            insert_members(front, key, inner[i]);
            if j == inner.len() {
                assert(among(inner, inner[i]));
                if inner[i] != key {
                    let m = choose|m: int| 0 <= m < front.len() && front[m] == inner[i];
                    assert(key_le(sorted[m], sorted[sorted.len() - 1]));
                }
            } else {
                assert(key_le(inner[i], inner[j]));
            }
        }
    }
}

/// Sorting gives a sorted run.
pub proof fn sort_gives_order(keys: Seq<Seq<u8>>)
    ensures
        sorted_by_text(sort_by_text(keys)),
    decreases keys.len(),
{
    if keys.len() > 0 {
        sort_gives_order(keys.drop_last());
        insert_keeps_order(sort_by_text(keys.drop_last()), keys.last());
    }
}

/// Sorting keeps the keys.
pub proof fn sort_members(keys: Seq<Seq<u8>>, k: Seq<u8>)
    ensures
        among(sort_by_text(keys), k) <==> among(keys, k),
    decreases keys.len(),
{
    if keys.len() > 0 {
        let front = keys.drop_last();
        sort_members(front, k);
        insert_members(sort_by_text(front), keys.last(), k);
        if among(keys, k) {
            let i = choose|i: int| 0 <= i < keys.len() && keys[i] == k;
            if i < front.len() {
                assert(front[i] == k);
                assert(among(front, k));
            }
        }
        if among(front, k) {
            let i = choose|i: int| 0 <= i < front.len() && front[i] == k;
            assert(keys[i] == k);
        }
        if k == keys.last() {
            assert(keys[keys.len() - 1] == k);
        }
    }
}

/// Dropping repeats keeps the keys, and the last key stays last.
pub proof fn dedup_members(keys: Seq<Seq<u8>>, k: Seq<u8>)
    ensures
        among(dedup(keys), k) <==> among(keys, k),
        keys.len() > 0 ==> dedup(keys).len() > 0 && dedup(keys).last() == keys.last(),
    decreases keys.len(),
{
    if keys.len() > 0 {
        let front = keys.drop_last();
        let inner = dedup(front);
        let r = dedup(keys);
        dedup_members(front, k);
        if among(r, k) {
            let i = choose|i: int| 0 <= i < r.len() && r[i] == k;
            if i < inner.len() {
                assert(inner[i] == k);
                assert(among(inner, k));
                let m = choose|m: int| 0 <= m < front.len() && front[m] == k;
                assert(keys[m] == k);
            } else {
                assert(keys[keys.len() - 1] == k);
            }
        }
        if among(keys, k) {
            let i = choose|i: int| 0 <= i < keys.len() && keys[i] == k;
            if i < front.len() {
                assert(front[i] == k);
                assert(among(front, k));
                let m = choose|m: int| 0 <= m < inner.len() && inner[m] == k;
                assert(r[m] == k);
            } else {
                assert(r[r.len() - 1] == k);
            }
        }
    }
}

/// Dropping repeats from a sorted run gives a sorted run in which no key
/// equals its neighbour.
pub proof fn dedup_keeps_order(keys: Seq<Seq<u8>>)
    requires
        sorted_by_text(keys),
    ensures
        sorted_by_text(dedup(keys)),
        no_neighbours_repeat(dedup(keys)),
    decreases keys.len(),
{
    if keys.len() > 0 {
        let front = keys.drop_last();
        let inner = dedup(front);
        let r = dedup(keys);
        front_is_sorted(keys);
        dedup_keeps_order(front);
        if !(inner.len() > 0 && inner.last() == keys.last()) {
            assert forall|i: int, j: int| 0 <= i < j < r.len() implies key_le(
                #[trigger] r[i],
                #[trigger] r[j],
            ) by {
                if j == inner.len() {
                    dedup_members(front, inner[i]);
                    assert(among(inner, inner[i]));
                    let m = choose|m: int| 0 <= m < front.len() && front[m] == inner[i];
                    assert(key_le(keys[m], keys[keys.len() - 1]));
                } else {
                    assert(key_le(inner[i], inner[j]));
                }
            }
            assert forall|i: int| 0 <= i < r.len() - 1 implies #[trigger] r[i] != r[i + 1] by {
                if i + 1 < inner.len() {
                    assert(inner[i] != inner[i + 1]);
                }
            }
        }
    }
}

/// The open keys among the first `n` slots are the keys of those of them
/// that have no signature.
pub proof fn open_keys_are_waiting(slots: Seq<SlotView>, n: nat, k: Seq<u8>)
    requires
        n <= slots.len(),
    ensures
        among(open_keys(slots, n), k) <==> waits_for(slots.take(n as int), k),
    decreases n,
{
    let now = open_keys(slots, n);
    if n > 0 {
        let before = open_keys(slots, (n - 1) as nat);
        open_keys_are_waiting(slots, (n - 1) as nat, k);
        let last = slots[n - 1];
        let short = slots.take(n - 1);
        let long = slots.take(n as int);
        if among(now, k) {
            let i = choose|i: int| 0 <= i < now.len() && now[i] == k;
            if i < before.len() {
                assert(before[i] == k);
                assert(among(before, k));
                let m = choose|m: int|
                    0 <= m < short.len() && (#[trigger] short[m]).pubkey == k
                        && short[m].signature is None;
                assert(long[m] == short[m]);
            } else {
                assert(long[n - 1] == last);
            }
        }
        if waits_for(long, k) {
            let m = choose|m: int|
                0 <= m < long.len() && (#[trigger] long[m]).pubkey == k
                    && long[m].signature is None;
            if m < n - 1 {
                assert(short[m] == long[m]);
                assert(waits_for(short, k));
                let i = choose|i: int| 0 <= i < before.len() && before[i] == k;
                assert(now[i] == k);
            } else {
                assert(now[now.len() - 1] == k);
            }
        }
    }
}

/// The keys without a signature are none only where every slot is signed.
pub proof fn none_needed_means_complete(tx: TransactionView)
    ensures
        tx.needed_signatures().len() == 0 <==> tx.complete(),
{
    let slots = tx.slots();
    let open = open_keys(slots, slots.len());
    open_keys_empty(slots, slots.len());
    sort_keeps_length(open);
    dedup_nonempty(sort_by_text(open));
}

/// There is no open key among the first `n` slots exactly where each of
/// them is signed.
proof fn open_keys_empty(slots: Seq<SlotView>, n: nat)
    requires
        n <= slots.len(),
    ensures
        open_keys(slots, n).len() == 0 <==> forall|i: int|
            0 <= i < n ==> slots[i].signature is Some,
    decreases n,
{
    if n > 0 {
        open_keys_empty(slots, (n - 1) as nat);
    }
}

/// Sorting keeps the number of keys.
proof fn sort_keeps_length(keys: Seq<Seq<u8>>)
    ensures
        sort_by_text(keys).len() == keys.len(),
    decreases keys.len(),
{
    if keys.len() > 0 {
        sort_keeps_length(keys.drop_last());
        insert_members(sort_by_text(keys.drop_last()), keys.last(), keys.last());
    }
}

/// Dropping repeats leaves something of every run that is not empty.
proof fn dedup_nonempty(keys: Seq<Seq<u8>>)
    ensures
        dedup(keys).len() == 0 <==> keys.len() == 0,
    decreases keys.len(),
{
    if keys.len() > 0 {
        dedup_nonempty(keys.drop_last());
    }
}

impl TransactionView {
    /// The keys that still have to sign are in the order of their base58
    /// texts, none of them equals its neighbour, and they are the keys of
    /// the slots without a signature, no more and no fewer.
    pub proof fn needed_signatures_are_sorted_and_exact(self)
        ensures
            sorted_by_text(self.needed_signatures()),
            no_neighbours_repeat(self.needed_signatures()),
            forall|k: Seq<u8>| among(self.needed_signatures(), k) <==> waits_for(self.slots(), k),
    {
        let slots = self.slots();
        let open = open_keys(slots, slots.len());
        assert(slots.take(slots.len() as int) =~= slots);
        sort_gives_order(open);
        dedup_keeps_order(sort_by_text(open));
        assert forall|k: Seq<u8>| among(self.needed_signatures(), k) <==> waits_for(
            self.slots(),
            k,
        ) by {
            open_keys_are_waiting(slots, slots.len(), k);
            sort_members(open, k);
            dedup_members(sort_by_text(open), k);
        }
    }

    /// Whether the keys of the slots without a signature can be told apart
    /// by their base58 texts: different keys have different texts.
    pub open spec fn open_keys_differ_in_text(self) -> bool {
        forall|a: Seq<u8>, b: Seq<u8>|
            #![trigger waits_for(self.slots(), a), waits_for(self.slots(), b)]
            waits_for(self.slots(), a) && waits_for(self.slots(), b) && a != b
                ==> crate::trusted::base58_text(a) != crate::trusted::base58_text(b)
    }

    /// Where different open keys have different base58 texts, the keys that
    /// still have to sign rise strictly in the order of their texts, so
    /// that none of them is there twice: a key that is open in several
    /// slots, of one partition or of both, is needed once.
    pub proof fn needed_signatures_rise_strictly(self)
        requires
            self.open_keys_differ_in_text(),
        ensures
            forall|i: int, j: int|
                0 <= i < j < self.needed_signatures().len() ==> key_le(
                    #[trigger] self.needed_signatures()[i],
                    #[trigger] self.needed_signatures()[j],
                ) && !key_le(self.needed_signatures()[j], self.needed_signatures()[i])
                    && self.needed_signatures()[i] != self.needed_signatures()[j],
    {
        let r = self.needed_signatures();
        self.needed_signatures_are_sorted_and_exact();
        assert forall|i: int, j: int| 0 <= i < j < r.len() implies key_le(
            #[trigger] r[i],
            #[trigger] r[j],
        ) && !key_le(r[j], r[i]) && r[i] != r[j] by {
            assert(key_le(r[i], r[j]));
            if key_le(r[j], r[i]) {
                assert(key_le(r[i], r[i + 1]));
                if i + 1 < j {
                    assert(key_le(r[i + 1], r[j]));
                    key_order_is_transitive(r[i + 1], r[j], r[i]);
                }
                key_order_ties_on_equal_texts(r[i], r[i + 1]);
                assert(among(r, r[i]));
                assert(among(r, r[i + 1]));
                assert(waits_for(self.slots(), r[i]) && waits_for(self.slots(), r[i + 1]));
                assert(r[i] != r[i + 1]);
            }
            if r[i] == r[j] {
                key_order_is_total(r[i], r[i]);
            }
        }
    }

    /// Once a key has signed, it does not have to sign any more, and every
    /// other key has to sign exactly if it had to before.
    pub proof fn signed_key_is_not_needed(self, key: Seq<u8>, signature: Seq<u8>)
        ensures
            !among(self.signed_by(key, signature).needed_signatures(), key),
            forall|k: Seq<u8>|
                k != key ==> (among(self.signed_by(key, signature).needed_signatures(), k)
                    <==> among(self.needed_signatures(), k)),
    {
        let after = self.signed_by(key, signature);
        self.needed_signatures_are_sorted_and_exact();
        after.needed_signatures_are_sorted_and_exact();
        assert(after.slots() =~= sign_slots(self.slots(), key, signature));
        assert forall|k: Seq<u8>|
            waits_for(after.slots(), k) <==> (k != key && waits_for(self.slots(), k)) by {
            if waits_for(after.slots(), k) {
                let i = choose|i: int|
                    0 <= i < after.slots().len() && (#[trigger] after.slots()[i]).pubkey == k
                        && after.slots()[i].signature is None;
                assert(self.slots()[i].pubkey == k && self.slots()[i].signature is None);
            }
            if k != key && waits_for(self.slots(), k) {
                let i = choose|i: int|
                    0 <= i < self.slots().len() && (#[trigger] self.slots()[i]).pubkey == k
                        && self.slots()[i].signature is None;
                assert(after.slots()[i].pubkey == k && after.slots()[i].signature is None);
            }
        }
    }
}

} // verus!

//! Looking an address up in the table of a transaction, in both directions.
//!
//! The table is the concatenation of the four partitions: signed writable,
//! signed read-only, unsigned writable, unsigned read-only. A position in it
//! is never stored; it follows from the order.

use vstd::prelude::*;
use crate::model::{
    first_index, is_first_index, reference_view, same_identity, Address, Transaction,
    TransactionView,
};

verus! {

impl TransactionView {
    /// The first position of the table that holds `address`, if there is one.
    pub open spec fn first_index_of(self, address: Seq<u8>) -> Option<int> {
        first_index(self.table(), address)
    }

    /// The first position of `address` in the table, cut to eight bits. The
    /// writer of a message does not go by this byte: it refuses a position
    /// that eight bits do not hold.
    pub open spec fn index_byte_of(self, address: Seq<u8>) -> Option<u8> {
        match self.first_index_of(address) {
            Some(i) => Some((i % 256) as u8),
            None => None,
        }
    }

    /// A position that is the first to hold an address is the one that
    /// `first_index_of` names.
    pub proof fn first_index_is(self, address: Seq<u8>, i: int)
        requires
            self.is_first_index_of(address, i),
        ensures
            self.first_index_of(address) == Some(i),
    {
        let j = choose|j: int| is_first_index(self.table(), address, j);
        assert(is_first_index(self.table(), address, j));
        if j < i {
            assert(self.table()[j] == address);
        } else if i < j {
            assert(self.table()[i] == address);
        }
    }
}

impl Transaction {
    /// Searches the table for `address`, whatever partition holds it, and
    /// gives its first position, cut to eight bits. `find_address_position`
    /// gives the position itself.
    pub fn find_address_index(&self, address: &Address) -> (r: Option<u8>)
        ensures
            r == self@.index_byte_of(address@),
    {
        match self.find_address_position(address) {
            Some(position) => Some((position % 256) as u8),
            None => None,
        }
    }

    /// Searches the table for `address`, whatever partition holds it, and
    /// gives its first position.
    pub fn find_address_position(&self, address: &Address) -> (r: Option<u128>)
        ensures
            match self@.first_index_of(address@) {
                Some(i) => r matches Some(position) && position == i && self@.is_first_index_of(
                    address@,
                    i,
                ),
                None => r is None,
            },
    {
        let n0 = self.signed_read_write_addresses.len();
        let n1 = self.signed_read_only_addresses.len();
        let n2 = self.unsigned_read_write_addresses.len();
        let n3 = self.unsigned_read_only_addresses.len();
        let ghost t = self@.table();
        let ghost a = address@;
        let mut i: usize = 0;
        while i < n0
            invariant
                i <= n0,
                n0 == self.signed_read_write_addresses.len(),
                t == self@.table(),
                a == address@,
                forall|j: int| 0 <= j < i ==> t[j] != a,
            decreases n0 - i,
        {
            if same_identity(&address.0, &self.signed_read_write_addresses[i].pubkey.0) {
                proof {
                    assert(t[i as int] == a);
                    self@.first_index_is(a, i as int);
                }
                return Some(position(0, 0, 0, i));
            }
            i += 1;
        }
        let mut i: usize = 0;
        while i < n1
            invariant
                i <= n1,
                n0 == self.signed_read_write_addresses.len(),
                n1 == self.signed_read_only_addresses.len(),
                t == self@.table(),
                a == address@,
                forall|j: int| 0 <= j < n0 + i ==> t[j] != a,
            decreases n1 - i,
        {
            if same_identity(&address.0, &self.signed_read_only_addresses[i].pubkey.0) {
                proof {
                    assert(t[n0 + i] == a);
                    self@.first_index_is(a, n0 + i);
                }
                return Some(position(n0, 0, 0, i));
            }
            i += 1;
        }
        let mut i: usize = 0;
        while i < n2
            invariant
                i <= n2,
                n0 == self.signed_read_write_addresses.len(),
                n1 == self.signed_read_only_addresses.len(),
                n2 == self.unsigned_read_write_addresses.len(),
                t == self@.table(),
                a == address@,
                forall|j: int| 0 <= j < n0 + n1 + i ==> t[j] != a,
            decreases n2 - i,
        {
            if same_identity(&address.0, &self.unsigned_read_write_addresses[i].0) {
                proof {
                    assert(t[n0 + n1 + i] == a);
                    self@.first_index_is(a, n0 + n1 + i);
                }
                return Some(position(n0, n1, 0, i));
            }
            i += 1;
        }
        let mut i: usize = 0;
        while i < n3
            invariant
                i <= n3,
                n0 == self.signed_read_write_addresses.len(),
                n1 == self.signed_read_only_addresses.len(),
                n2 == self.unsigned_read_write_addresses.len(),
                n3 == self.unsigned_read_only_addresses.len(),
                t == self@.table(),
                a == address@,
                forall|j: int| 0 <= j < n0 + n1 + n2 + i ==> t[j] != a,
            decreases n3 - i,
        {
            if same_identity(&address.0, &self.unsigned_read_only_addresses[i].0) {
                proof {
                    assert(t[n0 + n1 + n2 + i] == a);
                    self@.first_index_is(a, n0 + n1 + n2 + i);
                }
                return Some(position(n0, n1, n2, i));
            }
            i += 1;
        }
        None
    }

    /// Resolves a position of the table: gives the address there and the
    /// flags of its partition, `is_signed` and `is_read_write`.
    pub fn find_address_at_index(&self, index: u8) -> (r: Option<(Address, bool, bool)>)
        ensures
            match r {
                Some(found) => self@.address_at(index as int) == Some(reference_view(found)),
                None => self@.address_at(index as int) is None,
            },
    {
        let mut uindex: usize = index as usize;
        if uindex < self.signed_read_write_addresses.len() {
            return Some((Address(self.signed_read_write_addresses[uindex].pubkey.0), true, true));
        }
        uindex -= self.signed_read_write_addresses.len();
        if uindex < self.signed_read_only_addresses.len() {
            return Some((Address(self.signed_read_only_addresses[uindex].pubkey.0), true, false));
        }
        uindex -= self.signed_read_only_addresses.len();
        if uindex < self.unsigned_read_write_addresses.len() {
            return Some((Address(self.unsigned_read_write_addresses[uindex].0), false, true));
        }
        uindex -= self.unsigned_read_write_addresses.len();
        if uindex < self.unsigned_read_only_addresses.len() {
            return Some((Address(self.unsigned_read_only_addresses[uindex].0), false, false));
        }
        None
    }
}

/// A position that is the sum of four lengths.
fn position(a: usize, b: usize, c: usize, d: usize) -> (r: u128)
    ensures
        r == a + b + c + d,
{
    a as u128 + b as u128 + c as u128 + d as u128
}

/// Among the positions up to `k` that hold `address`, one is the first.
pub proof fn first_index_exists(table: Seq<Seq<u8>>, address: Seq<u8>, k: int)
    requires
        0 <= k < table.len(),
        table[k] == address,
    ensures
        exists|i: int| 0 <= i <= k && is_first_index(table, address, i),
    decreases k,
{
    if exists|j: int| 0 <= j < k && table[j] == address {
        let j = choose|j: int| 0 <= j < k && table[j] == address;
        first_index_exists(table, address, j);
    } else {
        assert(is_first_index(table, address, k));
    }
}

/// The first position of an address that the table holds at `k` is a
/// position up to `k` that holds it, and no earlier position does.
pub proof fn first_index_is_first(table: Seq<Seq<u8>>, address: Seq<u8>, k: int)
    requires
        0 <= k < table.len(),
        table[k] == address,
    ensures
        first_index(table, address) matches Some(i) && 0 <= i <= k && is_first_index(
            table,
            address,
            i,
        ),
{
    first_index_exists(table, address, k);
    let i = choose|i: int| is_first_index(table, address, i);
    assert(is_first_index(table, address, i));
    if i > k {
        assert(table[k] != address);
    }
}

/// The first position of an address, where there is one, is a position of
/// the table that holds the address.
pub proof fn first_index_is_in_the_table(table: Seq<Seq<u8>>, address: Seq<u8>)
    ensures
        first_index(table, address) matches Some(i) ==> is_first_index(table, address, i),
        first_index(table, address) is None ==> forall|j: int|
            0 <= j < table.len() ==> table[j] != address,
{
    if crate::model::table_holds(table, address) {
        let k = choose|k: int| 0 <= k < table.len() && table[k] == address;
        first_index_is_first(table, address, k);
    }
}

} // verus!

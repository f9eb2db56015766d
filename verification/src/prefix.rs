//! What a reader has decided does not change when more bytes come.
//!
//! A reader that meets the end of its input inside a field says
//! `Incomplete`; every other outcome rests on bytes that it has seen. So a
//! caller may read again from the start whenever more bytes have come in.

use vstd::prelude::*;
use crate::decode::{
    counts_at, data_at, decoded, decoded_at, header_at, instruction_at, instructions_at,
    references_at, signatures_at, table_at, Header,
};
use crate::error::DecodeError;
use crate::model::{InstructionView, TransactionView};
use crate::varint::compact_u16_at;

verus! {

/// A count that was read is read again when more bytes follow.
pub proof fn compact_u16_stays(s: Seq<u8>, more: Seq<u8>, pos: int)
    ensures
        compact_u16_at(s, pos) matches Some(found) ==> compact_u16_at(s + more, pos) == Some(found)
            && pos < found.1 <= s.len(),
{
}

/// Signatures that were read, or a fault that was met among them, are met
/// again when more bytes follow.
pub proof fn signatures_stay(s: Seq<u8>, more: Seq<u8>, pos: int, n: nat)
    requires
        0 <= pos,
    ensures
        signatures_at(s, pos, n) != Err::<Seq<Option<Seq<u8>>>, DecodeError>(
            DecodeError::Incomplete,
        ) ==> signatures_at(s + more, pos, n) == signatures_at(s, pos, n),
        signatures_at(s, pos, n) is Ok && n > 0 ==> pos + 64 * n <= s.len(),
    decreases n,
{
    if n > 0 {
        signatures_stay(s, more, pos, (n - 1) as nat);
        if pos + 64 * n <= s.len() {
            assert((s + more).subrange(pos + 64 * (n - 1), pos + 64 * n) =~= s.subrange(
                pos + 64 * (n - 1),
                pos + 64 * n,
            ));
        }
    }
}

/// A header that was read, or a fault that was met in it, is met again when
/// more bytes follow.
pub proof fn header_stays(s: Seq<u8>, more: Seq<u8>)
    ensures
        header_at(s) != Err::<Header, DecodeError>(DecodeError::Incomplete) ==> header_at(s + more)
            == header_at(s),
        header_at(s) matches Ok(h) ==> 0 <= h.next <= s.len(),
{
    compact_u16_stays(s, more, 0);
    if let Some((count, first)) = compact_u16_at(s, 0) {
        signatures_stay(s, more, first, count as nat);
        if let Ok(signatures) = signatures_at(s, first, count as nat) {
            let at = first + 64 * count;
            if at + 3 <= s.len() {
                compact_u16_stays(s, more, at + 3);
                assert(counts_at(s, at, count, signatures) != Err::<Header, DecodeError>(
                    DecodeError::Incomplete,
                ) ==> counts_at(s + more, at, count, signatures) == counts_at(
                    s,
                    at,
                    count,
                    signatures,
                ));
            }
        }
    }
}

/// An address table that was read is read again when more bytes follow.
pub proof fn table_stays(s: Seq<u8>, more: Seq<u8>, h: Header)
    requires
        0 <= h.next,
    ensures
        table_at(s, h) matches Ok(found) ==> table_at(s + more, h) == Ok::<
            (TransactionView, int),
            DecodeError,
        >(found) && 0 <= found.1 <= s.len(),
        !(table_at(s, h) matches Err(DecodeError::Fatal(_))),
{
    if let Ok((tx, at)) = table_at(s, h) {
        let t = s + more;
        let found = table_at(t, h)->Ok_0.0;
        let end = h.next + 32 * h.address_count();
        assert(t.subrange(end, end + 32) =~= s.subrange(end, end + 32));
        assert forall|k: int| 0 <= k < h.address_count() implies crate::decode::address_slice(
            t,
            h.next,
            k,
        ) == crate::decode::address_slice(s, h.next, k) by {
            assert(32 * k + 32 <= 32 * h.address_count()) by (nonlinear_arith)
                requires
                    0 <= k < h.address_count(),
            ;
            assert(t.subrange(h.next + 32 * k, h.next + 32 * k + 32) =~= s.subrange(
                h.next + 32 * k,
                h.next + 32 * k + 32,
            ));
        }
        assert(found.signed_read_write =~= tx.signed_read_write);
        assert(found.signed_read_only =~= tx.signed_read_only);
        assert(found.unsigned_read_write =~= tx.unsigned_read_write);
        assert(found.unsigned_read_only =~= tx.unsigned_read_only);
    }
}

/// References that were read, or a fault that was met among them, are met
/// again when more bytes follow.
pub proof fn references_stay(
    tx: TransactionView,
    s: Seq<u8>,
    more: Seq<u8>,
    pos: int,
    n: nat,
    instruction: usize,
)
    requires
        0 <= pos,
    ensures
        references_at(tx, s, pos, n, instruction) != Err::<
            Seq<(Seq<u8>, bool, bool)>,
            DecodeError,
        >(DecodeError::Incomplete) ==> references_at(tx, s + more, pos, n, instruction)
            == references_at(tx, s, pos, n, instruction),
        references_at(tx, s, pos, n, instruction) is Ok && n > 0 ==> pos + n <= s.len(),
    decreases n,
{
    if n > 0 {
        references_stay(tx, s, more, pos, (n - 1) as nat, instruction);
    }
}

/// An instruction that was read, or a fault that was met in it, is met
/// again when more bytes follow.
pub proof fn instruction_stays(
    tx: TransactionView,
    s: Seq<u8>,
    more: Seq<u8>,
    pos: int,
    instruction: usize,
)
    requires
        0 <= pos,
    ensures
        instruction_at(tx, s, pos, instruction) != Err::<(InstructionView, int), DecodeError>(
            DecodeError::Incomplete,
        ) ==> instruction_at(tx, s + more, pos, instruction) == instruction_at(
            tx,
            s,
            pos,
            instruction,
        ),
        instruction_at(tx, s, pos, instruction) matches Ok(found) ==> pos < found.1 <= s.len(),
{
    if pos < s.len() {
        compact_u16_stays(s, more, pos + 1);
        if let Some((count, first)) = compact_u16_at(s, pos + 1) {
            references_stay(tx, s, more, first, count as nat, instruction);
            if references_at(tx, s, first, count as nat, instruction) is Ok {
                let at = first + count;
                compact_u16_stays(s, more, at);
                if let Some((len, start)) = compact_u16_at(s, at) {
                    if start + len <= s.len() {
                        assert((s + more).subrange(start, start + len) =~= s.subrange(
                            start,
                            start + len,
                        ));
                    }
                }
                assert(data_at(s, at, instruction) != Err::<(Seq<u8>, int), DecodeError>(
                    DecodeError::Incomplete,
                ) ==> data_at(s + more, at, instruction) == data_at(s, at, instruction));
            }
        }
    }
}

/// Instructions that were read, or a fault that was met among them, are
/// met again when more bytes follow.
pub proof fn instructions_stay(tx: TransactionView, s: Seq<u8>, more: Seq<u8>, pos: int, n: nat)
    requires
        0 <= pos <= s.len(),
    ensures
        instructions_at(tx, s, pos, n) != Err::<(Seq<InstructionView>, int), DecodeError>(
            DecodeError::Incomplete,
        ) ==> instructions_at(tx, s + more, pos, n) == instructions_at(tx, s, pos, n),
        instructions_at(tx, s, pos, n) matches Ok(found) ==> pos <= found.1 <= s.len(),
    decreases n,
{
    if n > 0 {
        instructions_stay(tx, s, more, pos, (n - 1) as nat);
        if let Ok((done, at)) = instructions_at(tx, s, pos, (n - 1) as nat) {
            instruction_stays(tx, s, more, at, (n - 1) as usize);
        }
    }
}

/// More bytes do not change what a reader has decided: a transaction that
/// was read is read again, within the bytes that were there, and a fault
/// that was met is met again. Only `Incomplete` can turn into something
/// else.
pub proof fn more_bytes_change_nothing_decided(s: Seq<u8>, more: Seq<u8>)
    ensures
        decoded_at(s) != Err::<(TransactionView, int), DecodeError>(DecodeError::Incomplete)
            ==> decoded_at(s + more) == decoded_at(s),
        decoded(s) != Err::<TransactionView, DecodeError>(DecodeError::Incomplete) ==> decoded(
            s + more,
        ) == decoded(s),
        decoded_at(s) matches Ok(found) ==> 0 <= found.1 <= s.len(),
{
    header_stays(s, more);
    if let Ok(h) = header_at(s) {
        table_stays(s, more, h);
        if let Ok((tx, at)) = table_at(s, h) {
            compact_u16_stays(s, more, at);
            if let Some((count, first)) = compact_u16_at(s, at) {
                instructions_stay(tx, s, more, first, count as nat);
            }
        }
    }
}

/// A stream that is cut inside a transaction is incomplete, not faulty:
/// every input that ends before the end of a transaction it starts reads
/// as `Incomplete`.
pub proof fn cut_transaction_is_incomplete(s: Seq<u8>, k: int)
    requires
        decoded_at(s) matches Ok(found) && 0 <= k < found.1,
    ensures
        decoded(s.take(k)) == Err::<TransactionView, DecodeError>(DecodeError::Incomplete),
{
    more_bytes_change_nothing_decided(s, Seq::empty());
    let cut = s.take(k);
    more_bytes_change_nothing_decided(cut, s.skip(k));
    assert(cut + s.skip(k) =~= s);
}

} // verus!

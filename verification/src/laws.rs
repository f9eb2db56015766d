//! What holds of the codec and the signing engine as a whole.

use vstd::prelude::*;
use crate::decode::{
    address_slice, decoded, header_at, instruction_at, instructions_at, references_at,
    signatures_at, table_at,
};
use crate::error::{DecodeError, DecodeFault};
use crate::model::{all_zero, signature_bytes_valid, SlotView, TransactionView};
use crate::varint::compact_u16_at;

verus! {

/// Where the bytes of `n` signature slots are all there, reading them does
/// not end as incomplete, and what is read are signatures that are not all
/// zero.
pub proof fn signatures_at_with_all_bytes(s: Seq<u8>, pos: int, n: nat)
    requires
        0 <= pos,
        pos + 64 * n <= s.len(),
    ensures
        signatures_at(s, pos, n) != Err::<Seq<Option<Seq<u8>>>, DecodeError>(
            DecodeError::Incomplete,
        ),
        signatures_at(s, pos, n) matches Err(e) ==> e == DecodeError::Fatal(
            DecodeFault::MalformedSignature,
        ),
        signatures_at(s, pos, n) matches Ok(found) ==> found.len() == n && forall|i: int|
            0 <= i < n ==> (#[trigger] found[i] matches Some(b) ==> signature_bytes_valid(b)
                && !all_zero(b)),
    decreases n,
{
    if n > 0 {
        signatures_at_with_all_bytes(s, pos, (n - 1) as nat);
    }
}

/// What is read as signatures has one entry for each slot, and each
/// signature among them is one that is not all zero.
pub proof fn signatures_at_gives_signatures(s: Seq<u8>, pos: int, n: nat)
    requires
        0 <= pos <= s.len(),
    ensures
        signatures_at(s, pos, n) matches Ok(found) ==> pos + 64 * n <= s.len() && found.len() == n
            && forall|i: int|
            0 <= i < n ==> (#[trigger] found[i] matches Some(b) ==> signature_bytes_valid(b)
                && !all_zero(b)),
    decreases n,
{
    if n > 0 {
        signatures_at_gives_signatures(s, pos, (n - 1) as nat);
    }
}

/// A stream whose header announces more signatures than signing addresses
/// is rejected for good, once the stream reaches the three count bytes.
pub proof fn decode_rejects_more_signatures_than_signed(s: Seq<u8>)
    requires
        compact_u16_at(s, 0) matches Some((count, first)) && first + 64 * count + 3 <= s.len()
            && count > s[first + 64 * count],
    ensures
        decoded(s) matches Err(e) && e is Fatal,
{
    let (count, first) = compact_u16_at(s, 0)->Some_0;
    signatures_at_with_all_bytes(s, first, count as nat);
}

/// A stream whose header leaves no writable signing address, so that no
/// account pays the fee, is rejected for good, once the stream reaches the
/// three count bytes.
pub proof fn decode_rejects_no_fee_payer(s: Seq<u8>)
    requires
        compact_u16_at(s, 0) matches Some((count, first)) && first + 64 * count + 3 <= s.len()
            && s[first + 64 * count] <= s[first + 64 * count + 1],
    ensures
        decoded(s) matches Err(e) && e is Fatal,
{
    let (count, first) = compact_u16_at(s, 0)->Some_0;
    signatures_at_with_all_bytes(s, first, count as nat);
}

/// What a header that was read says: there is a writable signing address,
/// no more signatures than signing addresses, and the counts are within
/// their limits.
pub proof fn header_at_is_sound(s: Seq<u8>)
    ensures
        header_at(s) matches Ok(h) ==> h.signed_read_write >= 1 && h.signatures.len()
            <= h.signed_read_write + h.signed_read_only <= 37 && h.unsigned_read_only <= 255
            && h.address_count() <= 65535 && 0 <= h.next <= s.len() && forall|i: int|
            0 <= i < h.signatures.len() ==> (#[trigger] h.signatures[i] matches Some(b)
                ==> signature_bytes_valid(b) && !all_zero(b)),
{
    if let Some((count, first)) = compact_u16_at(s, 0) {
        signatures_at_gives_signatures(s, first, count as nat);
    }
}

/// What the references that were read say: there is one for each index
/// byte, and each is what its index byte resolves to.
pub proof fn references_at_are_resolved(
    tx: TransactionView,
    s: Seq<u8>,
    pos: int,
    n: nat,
    instruction: usize,
)
    requires
        0 <= pos <= s.len(),
    ensures
        references_at(tx, s, pos, n, instruction) matches Ok(found) ==> found.len() == n && pos + n
            <= s.len() && forall|j: int|
            0 <= j < n ==> tx.resolves(s[pos + j] as int, #[trigger] found[j]),
    decreases n,
{
    if n > 0 {
        references_at_are_resolved(tx, s, pos, (n - 1) as nat, instruction);
    }
}

/// An instruction that was read is well formed for the table it was
/// resolved in, and ends within the stream.
pub proof fn instruction_at_is_well_formed(
    tx: TransactionView,
    s: Seq<u8>,
    pos: int,
    instruction: usize,
)
    requires
        0 <= pos,
    ensures
        instruction_at(tx, s, pos, instruction) matches Ok(found) ==> tx.well_formed_instruction(
            found.0,
        ) && pos < found.1 <= s.len(),
{
    if let Ok((ins, next)) = instruction_at(tx, s, pos, instruction) {
        let program = tx.address_at(s[pos] as int)->Some_0;
        let (count, first) = compact_u16_at(s, pos + 1)->Some_0;
        references_at_are_resolved(tx, s, first, count as nat, instruction);
        assert(tx.resolves(s[pos] as int, (ins.program_address, program.1, program.2)));
        assert(tx.resolvable((ins.program_address, program.1, program.2)));
        assert forall|j: int| 0 <= j < ins.addresses.len() implies tx.resolvable(
            #[trigger] ins.addresses[j],
        ) by {
            assert(tx.resolves(s[first + j] as int, ins.addresses[j]));
        }
    }
}

/// The instructions that were read are as many as were asked for, each is
/// well formed, and they end within the stream.
pub proof fn instructions_at_are_well_formed(tx: TransactionView, s: Seq<u8>, pos: int, n: nat)
    requires
        0 <= pos <= s.len(),
    ensures
        instructions_at(tx, s, pos, n) matches Ok(found) ==> found.0.len() == n && pos <= found.1
            <= s.len() && forall|k: int|
            0 <= k < n ==> tx.well_formed_instruction(#[trigger] found.0[k]),
    decreases n,
{
    if n > 0 {
        instructions_at_are_well_formed(tx, s, pos, (n - 1) as nat);
        if let Ok((done, at)) = instructions_at(tx, s, pos, (n - 1) as nat) {
            instruction_at_is_well_formed(tx, s, at, (n - 1) as usize);
        }
    }
}

/// Every transaction that a reader gives is well formed.
pub proof fn decoded_is_well_formed(s: Seq<u8>)
    ensures
        decoded(s) matches Ok(tx) ==> tx.well_formed(),
{
    if let Ok(tx) = decoded(s) {
        header_at_is_sound(s);
        let h = header_at(s)->Ok_0;
        let (table, at) = table_at(s, h)->Ok_0;
        let (count, first) = compact_u16_at(s, at)->Some_0;
        instructions_at_are_well_formed(table, s, first, count as nat);
        assert(tx.table() =~= table.table());
        assert(tx.slots() =~= table.slots());
        assert forall|i: int| 0 <= i < tx.table().len() implies (#[trigger] tx.table()[i]).len()
            == 32 by {
            assert(tx.table()[i] == address_slice(s, h.next, i));
        }
        assert forall|k: int| 0 <= k < tx.instructions.len() implies tx.well_formed_instruction(
            #[trigger] tx.instructions[k],
        ) by {
            let ins = tx.instructions[k];
            assert(table.well_formed_instruction(ins));
            let (signed, writable) = choose|signed: bool, writable: bool| #[trigger]
                table.resolvable((ins.program_address, signed, writable));
            let p = choose|p: int| table.resolves(p, (ins.program_address, signed, writable));
            assert(tx.resolves(p, (ins.program_address, signed, writable)));
            assert(tx.resolvable((ins.program_address, signed, writable)));
            assert forall|j: int| 0 <= j < ins.addresses.len() implies tx.resolvable(
                #[trigger] ins.addresses[j],
            ) by {
                assert(table.resolvable(ins.addresses[j]));
                let p = choose|p: int| table.resolves(p, ins.addresses[j]);
                assert(tx.resolves(p, ins.addresses[j]));
            }
        }
    }
}

/// Whether two transactions differ at most in the signatures of their
/// slots.
pub open spec fn same_apart_from_signatures(a: TransactionView, b: TransactionView) -> bool {
    &&& a.signed_read_write.map_values(|s: SlotView| s.pubkey) == b.signed_read_write.map_values(
        |s: SlotView| s.pubkey,
    )
    &&& a.signed_read_only.map_values(|s: SlotView| s.pubkey) == b.signed_read_only.map_values(
        |s: SlotView| s.pubkey,
    )
    &&& a.unsigned_read_write == b.unsigned_read_write
    &&& a.unsigned_read_only == b.unsigned_read_only
    &&& a.recent_blockhash == b.recent_blockhash
    &&& a.instructions == b.instructions
}

/// Transactions that differ in signatures alone have the same address
/// table.
pub proof fn signatures_are_not_in_the_table(a: TransactionView, b: TransactionView)
    requires
        same_apart_from_signatures(a, b),
    ensures
        a.table() == b.table(),
        a.signed_read_write.len() == b.signed_read_write.len(),
        a.signed_read_only.len() == b.signed_read_only.len(),
{
    let ka = a.signed_read_write.map_values(|s: SlotView| s.pubkey);
    let kb = b.signed_read_write.map_values(|s: SlotView| s.pubkey);
    let ra = a.signed_read_only.map_values(|s: SlotView| s.pubkey);
    let rb = b.signed_read_only.map_values(|s: SlotView| s.pubkey);
    assert(ka.len() == kb.len());
    assert(ra.len() == rb.len());
    assert forall|i: int| 0 <= i < a.slots().len() implies a.slots()[i].pubkey
        == b.slots()[i].pubkey by {
        if i < a.signed_read_write.len() {
            assert(ka[i] == kb[i]);
        } else {
            assert(ra[i - a.signed_read_write.len()] == rb[i - a.signed_read_write.len()]);
        }
    }
    assert(a.slots().map_values(|s: SlotView| s.pubkey) =~= b.slots().map_values(
        |s: SlotView| s.pubkey,
    ));
}

/// The index bytes of references do not depend on signatures.
pub proof fn reference_bytes_ignore_signatures(
    a: TransactionView,
    b: TransactionView,
    references: Seq<(Seq<u8>, bool, bool)>,
    n: nat,
)
    requires
        a.table() == b.table(),
    ensures
        a.reference_bytes(references, n) == b.reference_bytes(references, n),
    decreases n,
{
    if n > 0 {
        reference_bytes_ignore_signatures(a, b, references, (n - 1) as nat);
    }
}

/// The bytes of instructions do not depend on signatures.
pub proof fn instructions_bytes_ignore_signatures(a: TransactionView, b: TransactionView, n: nat)
    requires
        a.table() == b.table(),
        a.instructions == b.instructions,
    ensures
        a.instructions_bytes(n) == b.instructions_bytes(n),
    decreases n,
{
    if n > 0 {
        instructions_bytes_ignore_signatures(a, b, (n - 1) as nat);
        let ins = a.instructions[n - 1];
        reference_bytes_ignore_signatures(a, b, ins.addresses, ins.addresses.len());
    }
}

/// The message does not depend on signatures: two transactions that differ
/// in signatures alone have the same message, byte for byte, or fail to
/// have one for the same reason.
pub proof fn message_ignores_signatures(a: TransactionView, b: TransactionView)
    requires
        same_apart_from_signatures(a, b),
    ensures
        a.message_bytes() == b.message_bytes(),
{
    signatures_are_not_in_the_table(a, b);
    instructions_bytes_ignore_signatures(a, b, a.instructions.len());
}

/// Signing leaves the message as it was.
pub proof fn signing_keeps_the_message(tx: TransactionView, key: Seq<u8>, signature: Seq<u8>)
    ensures
        tx.signed_by(key, signature).message_bytes() == tx.message_bytes(),
{
    let after = tx.signed_by(key, signature);
    assert(after.signed_read_write.map_values(|s: SlotView| s.pubkey)
        =~= tx.signed_read_write.map_values(|s: SlotView| s.pubkey));
    assert(after.signed_read_only.map_values(|s: SlotView| s.pubkey)
        =~= tx.signed_read_only.map_values(|s: SlotView| s.pubkey));
    message_ignores_signatures(after, tx);
}

/// An address that resolves from an index byte has an index byte: its
/// first position is in the table and at most 255.
pub proof fn resolvable_is_held(tx: TransactionView, reference: (Seq<u8>, bool, bool))
    requires
        tx.resolvable(reference),
    ensures
        tx.reference_byte(reference.0) is Ok,
        tx.program_byte(reference.0) is Ok,
        tx.first_index_of(reference.0) matches Some(i) && 0 <= i <= 255,
{
    let p = choose|p: int| tx.resolves(p, reference);
    assert(tx.table()[p] == reference.0);
    crate::table::first_index_is_first(tx.table(), reference.0, p);
}

/// The references of a well-formed instruction can be written.
pub proof fn well_formed_references_encode(
    tx: TransactionView,
    references: Seq<(Seq<u8>, bool, bool)>,
    n: nat,
)
    requires
        n <= references.len(),
        forall|j: int| 0 <= j < references.len() ==> tx.resolvable(#[trigger] references[j]),
    ensures
        tx.reference_bytes(references, n) matches Ok(bytes) && bytes.len() == n,
    decreases n,
{
    if n > 0 {
        well_formed_references_encode(tx, references, (n - 1) as nat);
        resolvable_is_held(tx, references[n - 1]);
    }
}

/// The first `n` instructions of a well-formed transaction can be written.
pub proof fn well_formed_instructions_encode(tx: TransactionView, n: nat)
    requires
        tx.well_formed(),
        n <= tx.instructions.len(),
    ensures
        tx.instructions_bytes(n) is Ok,
    decreases n,
{
    if n > 0 {
        well_formed_instructions_encode(tx, (n - 1) as nat);
        let ins = tx.instructions[n - 1];
        assert(tx.well_formed_instruction(ins));
        let (signed, writable) = choose|signed: bool, writable: bool| #[trigger]
            tx.resolvable((ins.program_address, signed, writable));
        resolvable_is_held(tx, (ins.program_address, signed, writable));
        well_formed_references_encode(tx, ins.addresses, ins.addresses.len());
    }
}

/// A well-formed transaction, as every reader gives it, can be written:
/// neither its message nor its encoding fails.
pub proof fn well_formed_encodes(tx: TransactionView)
    requires
        tx.well_formed(),
    ensures
        tx.message_bytes() is Ok,
        tx.encoded_bytes() is Ok,
{
    well_formed_instructions_encode(tx, tx.instructions.len());
}

/// Signing keeps a transaction well formed, where the signature is one
/// that is not all zero.
pub proof fn signing_keeps_well_formed(tx: TransactionView, key: Seq<u8>, signature: Seq<u8>)
    requires
        tx.well_formed(),
        signature_bytes_valid(signature),
        !all_zero(signature),
    ensures
        tx.signed_by(key, signature).well_formed(),
{
    let after = tx.signed_by(key, signature);
    assert(after.signed_read_write.map_values(|s: SlotView| s.pubkey)
        =~= tx.signed_read_write.map_values(|s: SlotView| s.pubkey));
    assert(after.signed_read_only.map_values(|s: SlotView| s.pubkey)
        =~= tx.signed_read_only.map_values(|s: SlotView| s.pubkey));
    signatures_are_not_in_the_table(after, tx);
    assert forall|i: int| 0 <= i < after.slots().len() implies ((
    #[trigger] after.slots()[i]).signature matches Some(s) ==> signature_bytes_valid(s)
        && !all_zero(s)) by {
        assert(tx.slots()[i].signature matches Some(s) ==> signature_bytes_valid(s) && !all_zero(
            s,
        ));
    }
    assert forall|k: int| 0 <= k < after.instructions.len() implies after.well_formed_instruction(
        #[trigger] after.instructions[k],
    ) by {
        let ins = tx.instructions[k];
        assert(tx.well_formed_instruction(ins));
        let (signed, writable) = choose|signed: bool, writable: bool| #[trigger]
            tx.resolvable((ins.program_address, signed, writable));
        let p = choose|p: int| tx.resolves(p, (ins.program_address, signed, writable));
        assert(after.resolves(p, (ins.program_address, signed, writable)));
        assert(after.resolvable((ins.program_address, signed, writable)));
        assert forall|j: int| 0 <= j < ins.addresses.len() implies after.resolvable(
            #[trigger] ins.addresses[j],
        ) by {
            assert(tx.resolvable(ins.addresses[j]));
            let p = choose|p: int| tx.resolves(p, ins.addresses[j]);
            assert(after.resolves(p, ins.addresses[j]));
        }
    }
}

} // verus!

//! Reading what was written gives back what was written.

use vstd::prelude::*;
use crate::decode::{
    address_slice, blockhash_of, counts_at, data_at, decoded, decoded_at, header_at,
    instruction_at, instructions_at, references_at, signature_of, signatures_at, table_at, Header,
};
use crate::encode::{blockhash_bytes, concat_all, signature_bytes, zeros};
use crate::error::{DecodeError, EncodeFault};
use crate::model::{all_zero, signature_bytes_valid, InstructionView, SlotView, TransactionView};
use crate::table::first_index_is_first;
use crate::varint::{compact_u16_at, compact_u16_bytes};

verus! {

/// Whether `part` stands in `s` from position `pos` on.
pub open spec fn has_at(s: Seq<u8>, pos: int, part: Seq<u8>) -> bool {
    0 <= pos && pos + part.len() <= s.len() && s.subrange(pos, pos + part.len()) == part
}

/// Where two parts stand one behind the other, each of them stands at its
/// place.
pub proof fn has_at_both(s: Seq<u8>, pos: int, a: Seq<u8>, b: Seq<u8>)
    requires
        has_at(s, pos, a + b),
    ensures
        has_at(s, pos, a),
        has_at(s, pos + a.len(), b),
{
    let whole = s.subrange(pos, pos + (a + b).len());
    assert forall|i: int| 0 <= i < a.len() implies s[pos + i] == a[i] by {
        assert(whole[i] == (a + b)[i]);
    }
    assert forall|i: int| 0 <= i < b.len() implies s[pos + a.len() + i] == b[i] by {
        assert(whole[a.len() + i] == (a + b)[a.len() + i]);
    }
    assert(s.subrange(pos, pos + a.len()) =~= a);
    assert(s.subrange(pos + a.len(), pos + a.len() + b.len()) =~= b);
}

/// A byte of a part that stands in `s` is the byte of `s` at its place.
pub proof fn has_at_byte(s: Seq<u8>, pos: int, part: Seq<u8>, i: int)
    requires
        has_at(s, pos, part),
        0 <= i < part.len(),
    ensures
        s[pos + i] == part[i],
{
    assert(s.subrange(pos, pos + part.len())[i] == part[i]);
}

/// Where the encoding of a number stands, a reader finds the number and
/// the position behind the encoding.
pub proof fn compact_u16_read_back(s: Seq<u8>, pos: int, n: u16)
    requires
        has_at(s, pos, compact_u16_bytes(n)),
    ensures
        compact_u16_at(s, pos) == Some((n, pos + compact_u16_bytes(n).len())),
{
    let e = compact_u16_bytes(n);
    let before = s.take(pos);
    let after = s.skip(pos + e.len());
    assert(s =~= before + e + after) by {
        assert forall|i: int| 0 <= i < e.len() implies s[pos + i] == e[i] by {
            has_at_byte(s, pos, e, i);
        }
    }
    crate::varint::compact_u16_round_trip(n, before, after);
}

/// Whether every part has `width` bytes.
pub open spec fn all_of_width(parts: Seq<Seq<u8>>, width: nat) -> bool {
    forall|i: int| 0 <= i < parts.len() ==> (#[trigger] parts[i]).len() == width
}

/// Parts of one width, put one after another, are as long as their number
/// times the width.
pub proof fn concat_all_length(parts: Seq<Seq<u8>>, width: nat)
    requires
        all_of_width(parts, width),
    ensures
        concat_all(parts).len() == width * parts.len(),
{
    crate::encode::parts_of_one_width(parts, width);
}

/// Where parts of one width stand one after another, part number `k`
/// stands `k` widths in.
pub proof fn concat_all_part(s: Seq<u8>, pos: int, parts: Seq<Seq<u8>>, width: nat, k: int)
    requires
        all_of_width(parts, width),
        has_at(s, pos, concat_all(parts)),
        0 <= k < parts.len(),
    ensures
        has_at(s, pos + width * k, parts[k]),
        pos + width * k + width <= s.len(),
    decreases parts.len(),
{
    let front = parts.drop_last();
    assert forall|i: int| 0 <= i < front.len() implies (#[trigger] front[i]).len() == width by {
        assert(front[i] == parts[i]);
    }
    concat_all_length(front, width);
    concat_all_length(parts, width);
    has_at_both(s, pos, concat_all(front), parts.last());
    if k < parts.len() - 1 {
        concat_all_part(s, pos, front, width, k);
        assert(front[k] == parts[k]);
    } else {
        assert(width * k == width * front.len()) by (nonlinear_arith)
            requires
                k == front.len(),
        ;
    }
}

impl TransactionView {
    /// Whether `reference` is what the first position of its address
    /// resolves to, and one index byte can name that position.
    pub open spec fn first_resolves(self, reference: (Seq<u8>, bool, bool)) -> bool {
        self.first_index_of(reference.0) matches Some(p) && p < 256 && self.address_at(p) == Some(
            reference,
        )
    }

    /// Whether every reference of every instruction carries the flags of
    /// the first position of its address. This holds where no address is in
    /// the table twice.
    pub open spec fn references_are_first(self) -> bool {
        forall|k: int, j: int|
            0 <= k < self.instructions.len() && 0 <= j < self.instructions[k].addresses.len()
                ==> self.first_resolves(#[trigger] self.instructions[k].addresses[j])
    }

    /// Whether no address is in the table twice.
    pub open spec fn table_is_distinct(self) -> bool {
        forall|i: int, j: int|
            0 <= i < j < self.table().len() ==> #[trigger] self.table()[i]
                != #[trigger] self.table()[j]
    }

    /// Whether a reader accepts what a writer makes of the transaction: it
    /// is well formed and has at most 18 signing slots, which is as many
    /// signatures as a reader accepts.
    pub open spec fn reads_back(self) -> bool {
        &&& self.well_formed()
        &&& self.signed_count() <= 18
    }

    /// Whether writing and reading gives the transaction back as it is: a
    /// reader accepts it, and its references are first.
    pub open spec fn round_trips(self) -> bool {
        &&& self.reads_back()
        &&& self.references_are_first()
    }

    /// A reference as a reader finds it after a writer wrote it: with the
    /// flags of the first position of its address.
    pub open spec fn first_reference(self, reference: (Seq<u8>, bool, bool)) -> (
        Seq<u8>,
        bool,
        bool,
    ) {
        match self.first_index_of(reference.0) {
            Some(p) => match self.address_at(p) {
                Some(found) => found,
                None => reference,
            },
            None => reference,
        }
    }

    /// An instruction as a reader finds it after a writer wrote it: each
    /// reference has the flags of the first position of its address.
    pub open spec fn instruction_as_read(self, ins: InstructionView) -> InstructionView {
        InstructionView {
            addresses: ins.addresses.map_values(
                |r: (Seq<u8>, bool, bool)| self.first_reference(r),
            ),
            ..ins
        }
    }

    /// The transaction as a reader finds it after a writer wrote it. It
    /// differs from the transaction at most in the flags of references
    /// whose address is in the table more than once.
    pub open spec fn as_read_back(self) -> TransactionView {
        TransactionView {
            instructions: self.instructions.map_values(
                |ins: InstructionView| self.instruction_as_read(ins),
            ),
            ..self
        }
    }

    /// The transaction with the same address table and no instructions.
    pub open spec fn without_instructions(self) -> TransactionView {
        TransactionView { instructions: Seq::empty(), ..self }
    }
}

/// In a well-formed transaction whose table holds no address twice, the
/// references are first.
pub proof fn distinct_table_has_first_references(tx: TransactionView)
    requires
        tx.well_formed(),
        tx.table_is_distinct(),
    ensures
        tx.references_are_first(),
{
    assert forall|k: int, j: int|
        0 <= k < tx.instructions.len() && 0 <= j < tx.instructions[k].addresses.len()
            implies tx.first_resolves(#[trigger] tx.instructions[k].addresses[j]) by {
        let ins = tx.instructions[k];
        let r = ins.addresses[j];
        assert(tx.well_formed_instruction(ins));
        assert(tx.resolvable(r));
        let p = choose|p: int| tx.resolves(p, r);
        assert(tx.table()[p] == r.0);
        first_index_is_first(tx.table(), r.0, p);
        let f = tx.first_index_of(r.0)->Some_0;
        if f < p {
            assert(tx.table()[f] != tx.table()[p]);
        }
    }
}

/// What was written for the signatures of slots is read as those
/// signatures.
pub proof fn signatures_read_back(s: Seq<u8>, pos: int, slots: Seq<SlotView>, n: nat)
    requires
        n <= slots.len(),
        has_at(s, pos, concat_all(slots.map_values(|x: SlotView| signature_bytes(x)))),
        forall|i: int|
            0 <= i < slots.len() ==> ((#[trigger] slots[i]).signature matches Some(b)
                ==> signature_bytes_valid(b) && !all_zero(b)),
    ensures
        signatures_at(s, pos, n) == Ok::<Seq<Option<Seq<u8>>>, DecodeError>(
            Seq::new(n, |i: int| slots[i].signature),
        ),
        pos + 64 * slots.len() <= s.len(),
    decreases n,
{
    let parts = slots.map_values(|x: SlotView| signature_bytes(x));
    assert forall|i: int| 0 <= i < parts.len() implies (#[trigger] parts[i]).len() == 64 by {
        assert(parts[i] == signature_bytes(slots[i]));
    }
    concat_all_length(parts, 64);
    if n == 0 {
        assert(Seq::new(n, |i: int| slots[i].signature) =~= Seq::<Option<Seq<u8>>>::empty());
    } else {
        signatures_read_back(s, pos, slots, (n - 1) as nat);
        concat_all_part(s, pos, parts, 64, n - 1);
        let chunk = s.subrange(pos + 64 * (n - 1), pos + 64 * n);
        assert(chunk == parts[n - 1]);
        assert(parts[n - 1] == signature_bytes(slots[n - 1]));
        match slots[n - 1].signature {
            Some(b) => {
                assert(signature_of(chunk) == Ok::<Option<Seq<u8>>, crate::error::DecodeFault>(
                    Some(b),
                ));
            },
            None => {
                assert(all_zero(zeros(64)));
            },
        }
        assert(Seq::new((n - 1) as nat, |i: int| slots[i].signature).push(
            slots[n - 1].signature,
        ) =~= Seq::new(n, |i: int| slots[i].signature));
    }
}

/// What `reference_bytes` gives for the first `n` references: one byte for
/// each, the index byte of its address.
pub proof fn reference_bytes_meaning(
    tx: TransactionView,
    references: Seq<(Seq<u8>, bool, bool)>,
    n: nat,
)
    ensures
        tx.reference_bytes(references, n) matches Ok(bytes) ==> bytes.len() == n && forall|j: int|
            0 <= j < n ==> tx.reference_byte(references[j].0) == Ok::<u8, EncodeFault>(
                #[trigger] bytes[j],
            ),
    decreases n,
{
    if n > 0 {
        reference_bytes_meaning(tx, references, (n - 1) as nat);
    }
}

/// A reference that some index byte resolves to is read back with the
/// flags of the first position of its address, and that position is what is
/// written for it.
pub proof fn first_reference_is_written(tx: TransactionView, reference: (Seq<u8>, bool, bool))
    requires
        tx.resolvable(reference),
    ensures
        tx.reference_byte(reference.0) matches Ok(b) && tx.address_at(b as int) == Some(
            tx.first_reference(reference),
        ) && tx.resolves(b as int, tx.first_reference(reference)) && tx.first_index_of(
            reference.0,
        ) == Some(b as int),
        tx.first_reference(reference).0 == reference.0,
{
    crate::laws::resolvable_is_held(tx, reference);
    crate::table::first_index_is_in_the_table(tx.table(), reference.0);
}

/// What was written for references is read as those references, each with
/// the flags of the first position of its address.
pub proof fn references_read_back(
    tx: TransactionView,
    s: Seq<u8>,
    pos: int,
    references: Seq<(Seq<u8>, bool, bool)>,
    n: nat,
    instruction: usize,
)
    requires
        n <= references.len(),
        tx.reference_bytes(references, references.len()) matches Ok(bytes) && has_at(s, pos, bytes),
        forall|j: int| 0 <= j < references.len() ==> tx.resolvable(#[trigger] references[j]),
    ensures
        references_at(tx.without_instructions(), s, pos, n, instruction) == Ok::<
            Seq<(Seq<u8>, bool, bool)>,
            DecodeError,
        >(references.take(n as int).map_values(|r: (Seq<u8>, bool, bool)| tx.first_reference(r))),
    decreases n,
{
    let bytes = tx.reference_bytes(references, references.len())->Ok_0;
    let read = |r: (Seq<u8>, bool, bool)| tx.first_reference(r);
    reference_bytes_meaning(tx, references, references.len());
    if n == 0 {
        assert(references.take(0).map_values(read) =~= Seq::empty());
    } else {
        references_read_back(tx, s, pos, references, (n - 1) as nat, instruction);
        has_at_byte(s, pos, bytes, n - 1);
        let r = references[n - 1];
        first_reference_is_written(tx, r);
        assert(tx.reference_byte(r.0) == Ok::<u8, EncodeFault>(bytes[n - 1]));
        let p = bytes[n - 1] as int;
        assert(tx.without_instructions().address_at(p) == tx.address_at(p));
        assert(references.take(n - 1).map_values(read).push(tx.first_reference(r))
            =~= references.take(n as int).map_values(read));
    }
}

/// What was written for an instruction is read as that instruction, its
/// references with the flags of the first positions of their addresses.
pub proof fn instruction_read_back(
    tx: TransactionView,
    s: Seq<u8>,
    pos: int,
    ins: InstructionView,
    instruction: usize,
)
    requires
        tx.well_formed_instruction(ins),
        tx.instruction_bytes(ins) matches Ok(bytes) && has_at(s, pos, bytes),
    ensures
        instruction_at(tx.without_instructions(), s, pos, instruction) == Ok::<
            (InstructionView, int),
            DecodeError,
        >((tx.instruction_as_read(ins), pos + tx.instruction_bytes(ins)->Ok_0.len())),
{
    let bytes = tx.instruction_bytes(ins)->Ok_0;
    let table = tx.without_instructions();
    let program = tx.program_byte(ins.program_address)->Ok_0;
    let indices = tx.reference_bytes(ins.addresses, ins.addresses.len())->Ok_0;
    let count = compact_u16_bytes(ins.addresses.len() as u16);
    let size = compact_u16_bytes(ins.data.len() as u16);
    reference_bytes_meaning(tx, ins.addresses, ins.addresses.len());
    assert(bytes == seq![program] + count + indices + size + ins.data);
    has_at_both(s, pos, seq![program] + count + indices + size, ins.data);
    has_at_both(s, pos, seq![program] + count + indices, size);
    has_at_both(s, pos, seq![program] + count, indices);
    has_at_both(s, pos, seq![program], count);
    has_at_byte(s, pos, seq![program], 0);
    // the program
    let (signed, writable) = choose|signed: bool, writable: bool| #[trigger]
        tx.resolvable((ins.program_address, signed, writable));
    let q = choose|q: int| tx.resolves(q, (ins.program_address, signed, writable));
    assert(tx.table()[q] == ins.program_address);
    first_index_is_first(tx.table(), ins.program_address, q);
    let f = tx.first_index_of(ins.program_address)->Some_0;
    assert(program == f);
    assert(table.address_at(f) == tx.address_at(f));
    assert(tx.address_at(f)->Some_0.0 == ins.program_address);
    // the references
    compact_u16_read_back(s, pos + 1, ins.addresses.len() as u16);
    let first = pos + 1 + count.len();
    references_read_back(tx, s, first, ins.addresses, ins.addresses.len(), instruction);
    assert(ins.addresses.take(ins.addresses.len() as int) =~= ins.addresses);
    assert(tx.instruction_as_read(ins).program_address == ins.program_address);
    // the data
    compact_u16_read_back(s, first + indices.len(), ins.data.len() as u16);
    let start = first + indices.len() + size.len();
    assert(s.subrange(start, start + ins.data.len()) == ins.data);
    assert(data_at(s, first + indices.len(), instruction) == Ok::<(Seq<u8>, int), DecodeError>(
        (ins.data, start + ins.data.len()),
    ));
}

/// What was written for the first `n` instructions is read as those
/// instructions, as a reader finds them.
pub proof fn instructions_read_back(tx: TransactionView, s: Seq<u8>, pos: int, n: nat)
    requires
        tx.well_formed(),
        n <= tx.instructions.len(),
        tx.instructions_bytes(n) matches Ok(bytes) && has_at(s, pos, bytes),
    ensures
        instructions_at(tx.without_instructions(), s, pos, n) == Ok::<
            (Seq<InstructionView>, int),
            DecodeError,
        >(
            (
                tx.instructions.take(n as int).map_values(
                    |ins: InstructionView| tx.instruction_as_read(ins),
                ),
                pos + tx.instructions_bytes(n)->Ok_0.len(),
            ),
        ),
    decreases n,
{
    let read = |ins: InstructionView| tx.instruction_as_read(ins);
    if n == 0 {
        assert(tx.instructions.take(0).map_values(read) =~= Seq::empty());
    } else {
        let done = tx.instructions_bytes((n - 1) as nat)->Ok_0;
        let ins = tx.instructions[n - 1];
        let added = tx.instruction_bytes(ins)->Ok_0;
        has_at_both(s, pos, done, added);
        instructions_read_back(tx, s, pos, (n - 1) as nat);
        assert(tx.well_formed_instruction(ins));
        instruction_read_back(tx, s, pos + done.len(), ins, (n - 1) as usize);
        assert(tx.instructions.take(n - 1).map_values(read).push(tx.instruction_as_read(ins))
            =~= tx.instructions.take(n as int).map_values(read));
    }
}

/// The header that a reader finds where a transaction that reads back was
/// written, with `start` the position of its first address.
pub open spec fn header_of_written(tx: TransactionView, start: int) -> Header {
    Header {
        signatures: Seq::new(tx.slots().len(), |i: int| tx.slots()[i].signature),
        signed_read_write: tx.signed_read_write.len(),
        signed_read_only: tx.signed_read_only.len(),
        unsigned_read_write: tx.unsigned_read_write.len(),
        unsigned_read_only: tx.unsigned_read_only.len(),
        next: start,
    }
}

/// The three count bytes of a message.
pub open spec fn count_bytes(tx: TransactionView) -> Seq<u8> {
    seq![
        tx.signed_count() as u8,
        tx.signed_read_only.len() as u8,
        tx.unsigned_read_only.len() as u8,
    ]
}

/// What was written in front of the addresses is read as the header of the
/// transaction.
pub proof fn header_read_back(tx: TransactionView, s: Seq<u8>)
    requires
        tx.reads_back(),
        has_at(
            s,
            0,
            compact_u16_bytes(tx.signed_count() as u16) + tx.signatures_bytes() + count_bytes(tx)
                + compact_u16_bytes(tx.address_count() as u16),
        ),
    ensures
        header_at(s) == Ok::<Header, DecodeError>(
            header_of_written(
                tx,
                (compact_u16_bytes(tx.signed_count() as u16).len() + 64 * tx.signed_count() + 3
                    + compact_u16_bytes(tx.address_count() as u16).len()) as int,
            ),
        ),
{
    let count = tx.signed_count() as u16;
    let first = compact_u16_bytes(count);
    let signatures = tx.signatures_bytes();
    let counts = count_bytes(tx);
    let total = compact_u16_bytes(tx.address_count() as u16);
    has_at_both(s, 0, first + signatures + counts, total);
    has_at_both(s, 0, first + signatures, counts);
    has_at_both(s, 0, first, signatures);
    compact_u16_read_back(s, 0, count);
    let behind_count = first.len() as int;
    assert forall|i: int| 0 <= i < tx.slots().len() implies ((
    #[trigger] tx.slots()[i]).signature matches Some(b) ==> signature_bytes_valid(b) && !all_zero(
        b,
    )) by {}
    signatures_read_back(s, behind_count, tx.slots(), tx.slots().len());
    let parts = tx.slots().map_values(|x: SlotView| signature_bytes(x));
    assert forall|i: int| 0 <= i < parts.len() implies (#[trigger] parts[i]).len() == 64 by {
        assert(parts[i] == signature_bytes(tx.slots()[i]));
    }
    concat_all_length(parts, 64);
    let at_counts = behind_count + 64 * count;
    assert(signatures.len() == 64 * count);
    has_at_byte(s, at_counts, counts, 0);
    has_at_byte(s, at_counts, counts, 1);
    has_at_byte(s, at_counts, counts, 2);
    compact_u16_read_back(s, at_counts + 3, tx.address_count() as u16);
    let found = counts_at(
        s,
        at_counts,
        count,
        Seq::new(tx.slots().len(), |i: int| tx.slots()[i].signature),
    );
    assert(found == Ok::<Header, DecodeError>(header_of_written(tx, at_counts + 3 + total.len())));
}

/// What was written for the addresses and the block hash is read as the
/// address table of the transaction.
pub proof fn table_read_back(tx: TransactionView, s: Seq<u8>, start: int)
    requires
        tx.reads_back(),
        has_at(s, start, concat_all(tx.table()) + blockhash_bytes(tx.recent_blockhash)),
    ensures
        table_at(s, header_of_written(tx, start)) == Ok::<(TransactionView, int), DecodeError>(
            (tx.without_instructions(), start + 32 * tx.address_count() + 32),
        ),
{
    let h = header_of_written(tx, start);
    let table = tx.table();
    let hash = blockhash_bytes(tx.recent_blockhash);
    has_at_both(s, start, concat_all(table), hash);
    assert(all_of_width(table, 32));
    concat_all_length(table, 32);
    assert(table.len() == tx.address_count());
    let end = start + 32 * h.address_count();
    assert(hash.len() == 32);
    assert(s.subrange(end, end + 32) == hash);
    assert(blockhash_of(hash) == tx.recent_blockhash) by {
        if tx.recent_blockhash is None {
            assert(all_zero(zeros(32)));
        }
    }
    let found = table_at(s, h)->Ok_0.0;
    assert forall|k: int| 0 <= k < table.len() implies address_slice(s, start, k) == table[k] by {
        concat_all_part(s, start, table, 32, k);
    }
    let n0 = tx.signed_read_write.len() as int;
    let n1 = tx.signed_read_only.len() as int;
    let n2 = tx.unsigned_read_write.len() as int;
    assert forall|k: int| 0 <= k < n0 implies found.signed_read_write[k]
        == tx.signed_read_write[k] by {
        assert(table[k] == tx.signed_read_write[k].pubkey);
        assert(tx.slots()[k] == tx.signed_read_write[k]);
    }
    assert forall|k: int| 0 <= k < n1 implies found.signed_read_only[k]
        == tx.signed_read_only[k] by {
        assert(table[n0 + k] == tx.signed_read_only[k].pubkey);
        assert(tx.slots()[n0 + k] == tx.signed_read_only[k]);
    }
    assert forall|k: int| 0 <= k < n2 implies found.unsigned_read_write[k]
        == tx.unsigned_read_write[k] by {
        assert(table[n0 + n1 + k] == tx.unsigned_read_write[k]);
    }
    assert forall|k: int| 0 <= k < tx.unsigned_read_only.len() implies found.unsigned_read_only[k]
        == tx.unsigned_read_only[k] by {
        assert(table[n0 + n1 + n2 + k] == tx.unsigned_read_only[k]);
    }
    assert(found.signed_read_write =~= tx.signed_read_write);
    assert(found.signed_read_only =~= tx.signed_read_only);
    assert(found.unsigned_read_write =~= tx.unsigned_read_write);
    assert(found.unsigned_read_only =~= tx.unsigned_read_only);
}

/// What is written in front of the addresses.
pub open spec fn written_front(tx: TransactionView) -> Seq<u8> {
    compact_u16_bytes(tx.signed_count() as u16) + tx.signatures_bytes() + count_bytes(tx)
        + compact_u16_bytes(tx.address_count() as u16)
}

/// What is written for the addresses and the block hash.
pub open spec fn written_table(tx: TransactionView) -> Seq<u8> {
    concat_all(tx.table()) + blockhash_bytes(tx.recent_blockhash)
}

/// What is written for the instructions: their number, then each of them.
pub open spec fn written_instructions(tx: TransactionView) -> Seq<u8> {
    compact_u16_bytes(tx.instructions.len() as u16) + tx.instructions_bytes(
        tx.instructions.len(),
    )->Ok_0
}

/// The encoding of a well-formed transaction is made of three parts: what
/// stands in front of the addresses, the addresses with the block hash, and
/// the instructions.
pub proof fn encoding_has_three_parts(tx: TransactionView)
    requires
        tx.well_formed(),
    ensures
        tx.encoded_bytes() == Ok::<Seq<u8>, EncodeFault>(
            written_front(tx) + written_table(tx) + written_instructions(tx),
        ),
        written_front(tx).len() == compact_u16_bytes(tx.signed_count() as u16).len() + 64
            * tx.signed_count() + 3 + compact_u16_bytes(tx.address_count() as u16).len(),
        written_table(tx).len() == 32 * tx.address_count() + 32,
{
    crate::laws::well_formed_encodes(tx);
    let bytes = tx.encoded_bytes()->Ok_0;
    assert(bytes =~= written_front(tx) + written_table(tx) + written_instructions(tx));
    let parts = tx.slots().map_values(|x: SlotView| signature_bytes(x));
    assert forall|i: int| 0 <= i < parts.len() implies (#[trigger] parts[i]).len() == 64 by {
        assert(parts[i] == signature_bytes(tx.slots()[i]));
    }
    concat_all_length(parts, 64);
    assert(all_of_width(tx.table(), 32));
    concat_all_length(tx.table(), 32);
}

/// What was written for the instructions is read as the instructions of
/// the transaction, as a reader finds them.
pub proof fn written_instructions_read_back(tx: TransactionView, s: Seq<u8>, at: int)
    requires
        tx.reads_back(),
        has_at(s, at, written_instructions(tx)),
    ensures
        compact_u16_at(s, at) matches Some((count, first)) && count == tx.instructions.len()
            && instructions_at(tx.without_instructions(), s, first, count as nat) == Ok::<
            (Seq<InstructionView>, int),
            DecodeError,
        >((tx.as_read_back().instructions, at + written_instructions(tx).len())),
{
    crate::laws::well_formed_encodes(tx);
    let number = compact_u16_bytes(tx.instructions.len() as u16);
    let body = tx.instructions_bytes(tx.instructions.len())->Ok_0;
    has_at_both(s, at, number, body);
    compact_u16_read_back(s, at, tx.instructions.len() as u16);
    instructions_read_back(tx, s, at + number.len(), tx.instructions.len());
    assert(tx.instructions.take(tx.instructions.len() as int) =~= tx.instructions);
}

/// A reader that finds a header, a table behind it, a number of
/// instructions and then as many instructions has found a transaction.
pub proof fn decoded_at_from_parts(
    s: Seq<u8>,
    h: Header,
    table: TransactionView,
    at: int,
    count: u16,
    first: int,
    instructions: Seq<InstructionView>,
    next: int,
)
    requires
        header_at(s) == Ok::<Header, DecodeError>(h),
        table_at(s, h) == Ok::<(TransactionView, int), DecodeError>((table, at)),
        compact_u16_at(s, at) == Some((count, first)),
        instructions_at(table, s, first, count as nat) == Ok::<
            (Seq<InstructionView>, int),
            DecodeError,
        >((instructions, next)),
    ensures
        decoded_at(s) == Ok::<(TransactionView, int), DecodeError>(
            (TransactionView { instructions, ..table }, next),
        ),
{
}

/// Reading what was written gives back what was written: a well-formed
/// transaction with at most 18 signing slots is read from its encoding as
/// it is, but for the flags of references whose address is in the table
/// more than once, whatever bytes follow.
#[verifier::rlimit(50)]
pub proof fn decode_reads_what_encode_wrote(tx: TransactionView, after: Seq<u8>)
    requires
        tx.reads_back(),
    ensures
        tx.encoded_bytes() matches Ok(bytes) && decoded(bytes + after) == Ok::<
            TransactionView,
            DecodeError,
        >(tx.as_read_back()) && decoded_at(bytes + after) == Ok::<
            (TransactionView, int),
            DecodeError,
        >((tx.as_read_back(), bytes.len() as int)),
{
    encoding_has_three_parts(tx);
    let bytes = tx.encoded_bytes()->Ok_0;
    let s = bytes + after;
    let front = written_front(tx);
    let table = written_table(tx);
    let instructions = written_instructions(tx);
    assert(has_at(s, 0, front + table + instructions)) by {
        assert(s.subrange(0, bytes.len() as int) =~= bytes);
    }
    has_at_both(s, 0, front + table, instructions);
    has_at_both(s, 0, front, table);
    let start = front.len() as int;
    let h = header_of_written(tx, start);
    header_read_back(tx, s);
    let at = start + 32 * tx.address_count() + 32;
    table_read_back(tx, s, start);
    written_instructions_read_back(tx, s, at);
    let (count, first) = compact_u16_at(s, at)->Some_0;
    decoded_at_from_parts(
        s,
        h,
        tx.without_instructions(),
        at,
        count,
        first,
        tx.as_read_back().instructions,
        at + instructions.len(),
    );
    assert(TransactionView {
        instructions: tx.as_read_back().instructions,
        ..tx.without_instructions()
    } == tx.as_read_back());
    assert(bytes.len() == at + instructions.len());
}

/// A transaction whose references are first is read back as it is.
pub proof fn first_references_are_read_as_they_are(tx: TransactionView)
    requires
        tx.references_are_first(),
    ensures
        tx.as_read_back() == tx,
{
    let read = tx.as_read_back();
    assert forall|k: int| 0 <= k < tx.instructions.len() implies read.instructions[k]
        == tx.instructions[k] by {
        let ins = tx.instructions[k];
        assert forall|j: int| 0 <= j < ins.addresses.len() implies tx.first_reference(
            ins.addresses[j],
        ) == ins.addresses[j] by {
            assert(tx.first_resolves(tx.instructions[k].addresses[j]));
        }
        assert(tx.instruction_as_read(ins).addresses =~= ins.addresses);
    }
    assert(read.instructions =~= tx.instructions);
}

/// Reading what was written gives back what was written: a transaction
/// that is well formed, has at most 18 signing slots and whose references
/// are first is read from its encoding as it is, whatever bytes follow.
pub proof fn decode_reads_back_what_encode_wrote(tx: TransactionView, after: Seq<u8>)
    requires
        tx.round_trips(),
    ensures
        tx.encoded_bytes() matches Ok(bytes) && decoded(bytes + after) == Ok::<
            TransactionView,
            DecodeError,
        >(tx) && decoded_at(bytes + after) == Ok::<(TransactionView, int), DecodeError>(
            (tx, bytes.len() as int),
        ),
{
    decode_reads_what_encode_wrote(tx, after);
    first_references_are_read_as_they_are(tx);
}

/// The index bytes of references do not depend on their flags.
pub proof fn reference_bytes_of_read_back(
    tx: TransactionView,
    references: Seq<(Seq<u8>, bool, bool)>,
    n: nat,
)
    requires
        n <= references.len(),
    ensures
        tx.reference_bytes(
            references.map_values(|r: (Seq<u8>, bool, bool)| tx.first_reference(r)),
            n,
        ) == tx.reference_bytes(references, n),
    decreases n,
{
    if n > 0 {
        reference_bytes_of_read_back(tx, references, (n - 1) as nat);
        crate::table::first_index_is_in_the_table(tx.table(), references[n - 1].0);
    }
}

/// An instruction as a reader finds it is written as the instruction
/// itself.
pub proof fn instruction_bytes_of_read_back(tx: TransactionView, ins: InstructionView)
    ensures
        tx.instruction_bytes(tx.instruction_as_read(ins)) == tx.instruction_bytes(ins),
{
    reference_bytes_of_read_back(tx, ins.addresses, ins.addresses.len());
}

/// The first `n` instructions as a reader finds them are written as the
/// instructions themselves.
pub proof fn instructions_bytes_of_read_back(tx: TransactionView, n: nat)
    requires
        n <= tx.instructions.len(),
    ensures
        tx.as_read_back().instructions_bytes(n) == tx.instructions_bytes(n),
    decreases n,
{
    let read = tx.as_read_back();
    assert(read.table() == tx.table());
    if n > 0 {
        instructions_bytes_of_read_back(tx, (n - 1) as nat);
        let ins = tx.instructions[n - 1];
        instruction_bytes_of_read_back(tx, ins);
        let found = tx.instruction_as_read(ins);
        assert(read.instructions[n - 1] == found);
        crate::laws::reference_bytes_ignore_signatures(
            read,
            tx,
            found.addresses,
            found.addresses.len(),
        );
    }
}

/// What a reader finds after a writer wrote a transaction has the message
/// and the signing slots of the transaction, so the same keys have to sign
/// the same bytes.
pub proof fn read_back_keeps_message_and_slots(tx: TransactionView)
    ensures
        tx.as_read_back().message_bytes() == tx.message_bytes(),
        tx.as_read_back().encoded_bytes() == tx.encoded_bytes(),
        tx.as_read_back().slots() == tx.slots(),
        tx.as_read_back().needed_signatures() == tx.needed_signatures(),
{
    let read = tx.as_read_back();
    assert(read.table() == tx.table());
    instructions_bytes_of_read_back(tx, tx.instructions.len());
}

/// What a reader finds after a writer wrote a well-formed transaction is
/// well formed and its references are first: from then on it is read back
/// as it is.
pub proof fn read_back_has_first_references(tx: TransactionView)
    requires
        tx.well_formed(),
    ensures
        tx.as_read_back().well_formed(),
        tx.as_read_back().references_are_first(),
{
    let read = tx.as_read_back();
    assert(read.table() == tx.table());
    assert(read.slots() == tx.slots());
    assert forall|k: int| 0 <= k < read.instructions.len() implies read.well_formed_instruction(
        #[trigger] read.instructions[k],
    ) && forall|j: int|
        0 <= j < read.instructions[k].addresses.len() ==> read.first_resolves(
            #[trigger] read.instructions[k].addresses[j],
        ) by {
        let ins = tx.instructions[k];
        let found = read.instructions[k];
        assert(found == tx.instruction_as_read(ins));
        assert(tx.well_formed_instruction(ins));
        let (signed, writable) = choose|signed: bool, writable: bool| #[trigger]
            tx.resolvable((ins.program_address, signed, writable));
        let p = choose|p: int| tx.resolves(p, (ins.program_address, signed, writable));
        assert(read.resolves(p, (found.program_address, signed, writable)));
        assert(read.resolvable((found.program_address, signed, writable)));
        assert forall|j: int| 0 <= j < found.addresses.len() implies read.resolvable(
            #[trigger] found.addresses[j],
        ) && read.first_resolves(found.addresses[j]) by {
            let r = ins.addresses[j];
            assert(tx.resolvable(r));
            first_reference_is_written(tx, r);
            let b = tx.reference_byte(r.0)->Ok_0 as int;
            let x = found.addresses[j];
            assert(x == tx.first_reference(r));
            assert(x.0 == r.0);
            assert(tx.first_index_of(r.0) == Some(b));
            assert(read.first_index_of(x.0) == Some(b));
            assert(read.address_at(b) == tx.address_at(b));
            assert(read.resolves(b, x));
            assert(read.resolvable(x));
            assert(read.first_resolves(x));
        }
    }
}

/// A transaction that a reader accepts still is one after a key has signed
/// it with a signature that is not all zero.
pub proof fn signing_keeps_reads_back(tx: TransactionView, key: Seq<u8>, signature: Seq<u8>)
    requires
        tx.reads_back(),
        signature_bytes_valid(signature),
        !all_zero(signature),
    ensures
        tx.signed_by(key, signature).reads_back(),
{
    crate::laws::signing_keeps_well_formed(tx, key, signature);
}

/// A transaction that round-trips still does after a key has signed it
/// with a signature that is not all zero: the next party reads what this
/// party wrote.
pub proof fn signing_keeps_round_trip(tx: TransactionView, key: Seq<u8>, signature: Seq<u8>)
    requires
        tx.round_trips(),
        signature_bytes_valid(signature),
        !all_zero(signature),
    ensures
        tx.signed_by(key, signature).round_trips(),
{
    let after = tx.signed_by(key, signature);
    crate::laws::signing_keeps_well_formed(tx, key, signature);
    assert(after.signed_read_write.map_values(|s: SlotView| s.pubkey)
        =~= tx.signed_read_write.map_values(|s: SlotView| s.pubkey));
    assert(after.signed_read_only.map_values(|s: SlotView| s.pubkey)
        =~= tx.signed_read_only.map_values(|s: SlotView| s.pubkey));
    crate::laws::signatures_are_not_in_the_table(after, tx);
    assert forall|k: int, j: int|
        0 <= k < after.instructions.len() && 0 <= j < after.instructions[k].addresses.len()
            implies after.first_resolves(#[trigger] after.instructions[k].addresses[j]) by {
        let r = tx.instructions[k].addresses[j];
        assert(tx.first_resolves(r));
        let p = tx.first_index_of(r.0)->Some_0;
        assert(after.address_at(p) == tx.address_at(p));
    }
}

/// The hand-off from one party to the next: a party reads a transaction
/// with at most 18 signing slots, a key signs it with a signature that is
/// not all zero, and the party writes it. Whoever reads that, whatever
/// bytes follow, finds the same message to sign, byte for byte, the same
/// signing slots with the new signature, and so the same keys still to
/// sign.
#[verifier::rlimit(50)]
pub proof fn next_party_reads_the_same_message(
    bytes: Seq<u8>,
    key: Seq<u8>,
    signature: Seq<u8>,
    after: Seq<u8>,
)
    requires
        decoded(bytes) matches Ok(tx) && tx.signed_count() <= 18,
        signature_bytes_valid(signature),
        !all_zero(signature),
    ensures
        decoded(bytes)->Ok_0.signed_by(key, signature).encoded_bytes() matches Ok(written)
            && decoded(written + after) matches Ok(next) && next.message_bytes() is Ok
            && next.message_bytes() == decoded(bytes)->Ok_0.message_bytes() && next.slots()
            == decoded(bytes)->Ok_0.signed_by(key, signature).slots() && next.needed_signatures()
            == decoded(bytes)->Ok_0.signed_by(key, signature).needed_signatures(),
{
    let tx = decoded(bytes)->Ok_0;
    let signed = tx.signed_by(key, signature);
    crate::laws::decoded_is_well_formed(bytes);
    signing_keeps_reads_back(tx, key, signature);
    crate::laws::signing_keeps_the_message(tx, key, signature);
    decode_reads_what_encode_wrote(signed, after);
    read_back_keeps_message_and_slots(signed);
    crate::laws::well_formed_encodes(signed);
}

} // verus!

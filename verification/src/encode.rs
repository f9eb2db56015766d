//! Writing a transaction as bytes: the message that is signed, and the whole
//! transaction with its signatures in front.

use vstd::prelude::*;
use crate::error::{EncodeError, EncodeFault};
use crate::limits::MAXIMUM_INSTRUCTION_DATA_COUNT;
use crate::model::{
    Address, Instruction, InstructionView, PubkeyWithSignature, SlotView, Transaction,
    TransactionView,
};
use crate::varint::{compact_u16_bytes, encode_compact_u16};

verus! {

/// The parts one after another.
pub open spec fn concat_all(parts: Seq<Seq<u8>>) -> Seq<u8>
    decreases parts.len(),
{
    if parts.len() == 0 {
        Seq::empty()
    } else {
        concat_all(parts.drop_last()) + parts.last()
    }
}

/// `n` zero bytes.
pub open spec fn zeros(n: nat) -> Seq<u8> {
    Seq::new(n, |i: int| 0u8)
}

/// The 32 bytes that stand for the recent block hash: zeros where there is
/// none.
pub open spec fn blockhash_bytes(hash: Option<Seq<u8>>) -> Seq<u8> {
    match hash {
        Some(h) => h,
        None => zeros(32),
    }
}

/// The 64 bytes that stand for the signature of a slot: zeros where there
/// is none.
pub open spec fn signature_bytes(slot: SlotView) -> Seq<u8> {
    match slot.signature {
        Some(s) => s,
        None => zeros(64),
    }
}

impl TransactionView {
    /// Whether every count of the header fits its field: one byte for the
    /// signing slots and for the unsigned read-only addresses, sixteen bits
    /// for the addresses in all and for the instructions.
    pub open spec fn counts_fit(self) -> bool {
        &&& self.signed_count() <= 255
        &&& self.unsigned_read_only.len() <= 255
        &&& self.address_count() <= 65535
        &&& self.instructions.len() <= 65535
    }

    /// The message up to the first instruction, of a transaction whose
    /// counts fit: the three counts of the header, the address count, the
    /// addresses in table order, the block hash and the instruction count.
    pub open spec fn header_bytes(self) -> Seq<u8> {
        seq![
            self.signed_count() as u8,
            self.signed_read_only.len() as u8,
            self.unsigned_read_only.len() as u8,
        ] + compact_u16_bytes(self.address_count() as u16) + concat_all(self.table())
            + blockhash_bytes(self.recent_blockhash) + compact_u16_bytes(
            self.instructions.len() as u16,
        )
    }

    /// The index byte of the program `address` of an instruction: its first
    /// position in the table, which must be there and at most 255.
    pub open spec fn program_byte(self, address: Seq<u8>) -> Result<u8, EncodeFault> {
        match self.first_index_of(address) {
            None => Err(EncodeFault::ProgramAddressNotFound { address }),
            Some(i) => if i > 255 {
                Err(EncodeFault::AddressIndexTooLarge { address })
            } else {
                Ok(i as u8)
            },
        }
    }

    /// The index byte of the account `address` of an instruction: its first
    /// position in the table, which must be there and at most 255.
    pub open spec fn reference_byte(self, address: Seq<u8>) -> Result<u8, EncodeFault> {
        match self.first_index_of(address) {
            None => Err(EncodeFault::AddressNotFound { address }),
            Some(i) => if i > 255 {
                Err(EncodeFault::AddressIndexTooLarge { address })
            } else {
                Ok(i as u8)
            },
        }
    }

    /// The index bytes of the first `n` of `references`, or the fault of the
    /// first of them that has no index byte.
    pub open spec fn reference_bytes(
        self,
        references: Seq<(Seq<u8>, bool, bool)>,
        n: nat,
    ) -> Result<Seq<u8>, EncodeFault>
        decreases n,
    {
        if n == 0 {
            Ok(Seq::empty())
        } else {
            match self.reference_bytes(references, (n - 1) as nat) {
                Err(e) => Err(e),
                Ok(bytes) => match self.reference_byte(references[n - 1].0) {
                    Err(e) => Err(e),
                    Ok(b) => Ok(bytes.push(b)),
                },
            }
        }
    }

    /// The bytes of one instruction: the index of its program, the count of
    /// its references and their indices, the length of its data and the
    /// data. The first thing that cannot be written decides the fault.
    pub open spec fn instruction_bytes(self, ins: InstructionView) -> Result<Seq<u8>, EncodeFault> {
        match self.program_byte(ins.program_address) {
            Err(e) => Err(e),
            Ok(program) => if ins.addresses.len() > 65535 {
                Err(EncodeFault::TooManyInstructionAddresses { len: ins.addresses.len() as usize })
            } else {
                match self.reference_bytes(ins.addresses, ins.addresses.len()) {
                    Err(e) => Err(e),
                    Ok(indices) => if ins.data.len() > MAXIMUM_INSTRUCTION_DATA_COUNT {
                        Err(EncodeFault::DataTooLong { len: ins.data.len() as usize })
                    } else {
                        Ok(
                            seq![program] + compact_u16_bytes(ins.addresses.len() as u16) + indices
                                + compact_u16_bytes(ins.data.len() as u16) + ins.data,
                        )
                    },
                }
            },
        }
    }

    /// The bytes of the first `n` instructions, or the fault of the first of
    /// them that cannot be written.
    pub open spec fn instructions_bytes(self, n: nat) -> Result<Seq<u8>, EncodeFault>
        decreases n,
    {
        if n == 0 {
            Ok(Seq::empty())
        } else {
            match self.instructions_bytes((n - 1) as nat) {
                Err(e) => Err(e),
                Ok(bytes) => match self.instruction_bytes(self.instructions[n - 1]) {
                    Err(e) => Err(e),
                    Ok(b) => Ok(bytes + b),
                },
            }
        }
    }

    /// The message: what a signer signs. No signature has a part in it.
    /// There is none where a count does not fit its field; no count is ever
    /// cut to fit.
    pub open spec fn message_bytes(self) -> Result<Seq<u8>, EncodeFault> {
        if self.signed_count() > 255 {
            Err(EncodeFault::TooManySignedAddresses)
        } else if self.unsigned_read_only.len() > 255 {
            Err(EncodeFault::TooManyAddresses)
        } else if self.instructions.len() > 65535 {
            Err(EncodeFault::TooManyInstructions)
        } else if self.address_count() > 65535 {
            Err(EncodeFault::TooManyAddresses)
        } else {
            match self.instructions_bytes(self.instructions.len()) {
                Err(e) => Err(e),
                Ok(body) => Ok(self.header_bytes() + body),
            }
        }
    }

    /// The signatures of all slots in table order, 64 bytes each.
    pub open spec fn signatures_bytes(self) -> Seq<u8> {
        concat_all(self.slots().map_values(|s: SlotView| signature_bytes(s)))
    }

    /// The whole transaction: the count of its slots, their signatures, and
    /// the message.
    pub open spec fn encoded_bytes(self) -> Result<Seq<u8>, EncodeFault> {
        if self.signed_count() > 65535 {
            Err(EncodeFault::TooManyAddresses)
        } else {
            match self.message_bytes() {
                Err(e) => Err(e),
                Ok(message) => Ok(
                    compact_u16_bytes(self.signed_count() as u16) + self.signatures_bytes()
                        + message,
                ),
            }
        }
    }
}

/// Appends `buf` to `w`.
pub fn write(w: &mut Vec<u8>, buf: &[u8])
    ensures
        final(w)@ == old(w)@ + buf@,
{
    let mut i: usize = 0;
    while i < buf.len()
        invariant
            i <= buf.len(),
            w@ == old(w)@ + buf@.take(i as int),
        decreases buf.len() - i,
    {
        w.push(buf[i]);
        i += 1;
    }
    assert(buf@.take(buf@.len() as int) =~= buf@);
}

/// Taking one more part adds that part at the end.
pub proof fn concat_all_step(parts: Seq<Seq<u8>>, i: int)
    requires
        0 <= i < parts.len(),
    ensures
        concat_all(parts.take(i + 1)) == concat_all(parts.take(i)) + parts[i],
{
    assert(parts.take(i + 1).drop_last() =~= parts.take(i));
}

impl TransactionView {
    /// A fault among the first `n` references is the fault of any longer
    /// run of them.
    pub proof fn reference_fault_stays(self, refs: Seq<(Seq<u8>, bool, bool)>, n: nat, m: nat)
        requires
            n <= m,
            self.reference_bytes(refs, n) is Err,
        ensures
            self.reference_bytes(refs, m) == self.reference_bytes(refs, n),
        decreases m,
    {
        if n < m {
            self.reference_fault_stays(refs, n, (m - 1) as nat);
        }
    }

    /// A fault among the first `n` instructions is the fault of any longer
    /// run of them.
    pub proof fn instruction_fault_stays(self, n: nat, m: nat)
        requires
            n <= m,
            self.instructions_bytes(n) is Err,
        ensures
            self.instructions_bytes(m) == self.instructions_bytes(n),
        decreases m,
    {
        if n < m {
            self.instruction_fault_stays(n, (m - 1) as nat);
        }
    }
}

impl Transaction {
    /// The index byte of the program of an instruction.
    fn program_index(&self, address: &Address) -> (r: Result<u8, EncodeError>)
        ensures
            match self@.program_byte(address@) {
                Ok(b) => r == Ok::<u8, EncodeError>(b),
                Err(fault) => r matches Err(e) && e@ == fault,
            },
    {
        match self.find_address_position(address) {
            None => Err(EncodeError::ProgramAddressNotFound { address: *address }),
            Some(position) => if position > 255 {
                Err(EncodeError::AddressIndexTooLarge { address: *address })
            } else {
                Ok(position as u8)
            },
        }
    }

    /// The index byte of an account of an instruction.
    fn reference_index(&self, address: &Address) -> (r: Result<u8, EncodeError>)
        ensures
            match self@.reference_byte(address@) {
                Ok(b) => r == Ok::<u8, EncodeError>(b),
                Err(fault) => r matches Err(e) && e@ == fault,
            },
    {
        match self.find_address_position(address) {
            None => Err(EncodeError::AddressNotFound { address: *address }),
            Some(position) => if position > 255 {
                Err(EncodeError::AddressIndexTooLarge { address: *address })
            } else {
                Ok(position as u8)
            },
        }
    }

    /// Appends the index bytes of the references of `ins`.
    fn write_references(&self, ins: &Instruction, w: &mut Vec<u8>) -> (r: Result<(), EncodeError>)
        ensures
            match self@.reference_bytes(ins@.addresses, ins@.addresses.len()) {
                Ok(bytes) => r is Ok && final(w)@ == old(w)@ + bytes,
                Err(fault) => r matches Err(e) && e@ == fault,
            },
    {
        let ghost refs = ins@.addresses;
        let ghost tx = self@;
        let mut j: usize = 0;
        assert(w@ =~= old(w)@ + Seq::<u8>::empty());
        while j < ins.addresses.len()
            invariant
                j <= ins.addresses.len(),
                tx == self@,
                refs == ins@.addresses,
                refs.len() == ins.addresses.len(),
                tx.reference_bytes(refs, j as nat) matches Ok(bytes) && w@ == old(w)@ + bytes,
            decreases ins.addresses.len() - j,
        {
            let address = ins.addresses[j].0;
            assert(refs[j as int].0 == address@);
            let ghost done = tx.reference_bytes(refs, j as nat)->Ok_0;
            match self.reference_index(&address) {
                Err(e) => {
                    proof {
                        assert(tx.reference_bytes(refs, (j + 1) as nat) is Err);
                        tx.reference_fault_stays(refs, (j + 1) as nat, refs.len());
                    }
                    return Err(e);
                },
                Ok(b) => {
                    w.push(b);
                    assert(w@ =~= old(w)@ + done.push(b));
                },
            }
            j += 1;
        }
        Ok(())
    }

    /// Appends the bytes of one instruction.
    fn write_instruction(&self, ins: &Instruction, w: &mut Vec<u8>) -> (r: Result<(), EncodeError>)
        ensures
            match self@.instruction_bytes(ins@) {
                Ok(bytes) => r is Ok && final(w)@ == old(w)@ + bytes,
                Err(fault) => r matches Err(e) && e@ == fault,
            },
    {
        let program = match self.program_index(&ins.program_address) {
            Ok(b) => b,
            Err(e) => {
                return Err(e);
            },
        };
        let count = ins.addresses.len();
        if count > 65535 {
            return Err(EncodeError::TooManyInstructionAddresses { len: count });
        }
        w.push(program);
        let count16: u16 = count as u16;
        encode_compact_u16(count16, w);
        match self.write_references(ins, w) {
            Err(e) => {
                return Err(e);
            },
            Ok(_) => {},
        }
        let ghost indices = self@.reference_bytes(ins@.addresses, ins@.addresses.len())->Ok_0;
        let data_len = ins.data.len();
        if data_len > MAXIMUM_INSTRUCTION_DATA_COUNT as usize {
            return Err(EncodeError::DataTooLong { len: data_len });
        }
        encode_compact_u16(data_len as u16, w);
        write(w, ins.data.as_slice());
        proof {
            let tail = seq![program] + compact_u16_bytes(count16) + indices + compact_u16_bytes(
                data_len as u16,
            ) + ins@.data;
            assert(w@ =~= old(w)@ + tail);
        }
        Ok(())
    }

    /// Appends the addresses of the table, 32 bytes each.
    fn write_table(&self, w: &mut Vec<u8>)
        ensures
            final(w)@ == old(w)@ + concat_all(self@.table()),
    {
        let ghost tx = self@;
        let ghost table = tx.table();
        let n0 = self.signed_read_write_addresses.len();
        let n1 = self.signed_read_only_addresses.len();
        let n2 = self.unsigned_read_write_addresses.len();
        let n3 = self.unsigned_read_only_addresses.len();
        assert(concat_all(table.take(0)) =~= Seq::<u8>::empty());
        assert(w@ =~= old(w)@ + Seq::<u8>::empty());
        let mut i: usize = 0;
        while i < n0
            invariant
                i <= n0,
                n0 == self.signed_read_write_addresses.len(),
                tx == self@,
                table == tx.table(),
                w@ == old(w)@ + concat_all(table.take(i as int)),
            decreases n0 - i,
        {
            proof {
                concat_all_step(table, i as int);
                assert(table[i as int] == self.signed_read_write_addresses[i as int].pubkey.0@);
            }
            write(w, self.signed_read_write_addresses[i].pubkey.0.as_slice());
            assert(w@ =~= old(w)@ + concat_all(table.take(i + 1)));
            i += 1;
        }
        let mut i: usize = 0;
        while i < n1
            invariant
                i <= n1,
                n0 == self.signed_read_write_addresses.len(),
                n1 == self.signed_read_only_addresses.len(),
                tx == self@,
                table == tx.table(),
                w@ == old(w)@ + concat_all(table.take(n0 + i)),
            decreases n1 - i,
        {
            proof {
                concat_all_step(table, n0 + i);
                assert(table[n0 + i] == self.signed_read_only_addresses[i as int].pubkey.0@);
            }
            write(w, self.signed_read_only_addresses[i].pubkey.0.as_slice());
            assert(w@ =~= old(w)@ + concat_all(table.take(n0 + i + 1)));
            i += 1;
        }
        let mut i: usize = 0;
        while i < n2
            invariant
                i <= n2,
                n0 == self.signed_read_write_addresses.len(),
                n1 == self.signed_read_only_addresses.len(),
                n2 == self.unsigned_read_write_addresses.len(),
                tx == self@,
                table == tx.table(),
                w@ == old(w)@ + concat_all(table.take(n0 + n1 + i)),
            decreases n2 - i,
        {
            proof {
                concat_all_step(table, n0 + n1 + i);
                assert(table[n0 + n1 + i] == self.unsigned_read_write_addresses[i as int].0@);
            }
            write(w, self.unsigned_read_write_addresses[i].0.as_slice());
            assert(w@ =~= old(w)@ + concat_all(table.take(n0 + n1 + i + 1)));
            i += 1;
        }
        let mut i: usize = 0;
        while i < n3
            invariant
                i <= n3,
                n0 == self.signed_read_write_addresses.len(),
                n1 == self.signed_read_only_addresses.len(),
                n2 == self.unsigned_read_write_addresses.len(),
                n3 == self.unsigned_read_only_addresses.len(),
                tx == self@,
                table == tx.table(),
                w@ == old(w)@ + concat_all(table.take(n0 + n1 + n2 + i)),
            decreases n3 - i,
        {
            proof {
                concat_all_step(table, n0 + n1 + n2 + i);
                assert(table[n0 + n1 + n2 + i] == self.unsigned_read_only_addresses[i as int].0@);
            }
            write(w, self.unsigned_read_only_addresses[i].0.as_slice());
            assert(w@ =~= old(w)@ + concat_all(table.take(n0 + n1 + n2 + i + 1)));
            i += 1;
        }
        assert(table.take(table.len() as int) =~= table);
    }

    /// Appends the message up to the first instruction.
    fn write_header(&self, w: &mut Vec<u8>)
        requires
            self@.counts_fit(),
        ensures
            final(w)@ == old(w)@ + self@.header_bytes(),
    {
        let n0 = self.signed_read_write_addresses.len();
        let n1 = self.signed_read_only_addresses.len();
        let n2 = self.unsigned_read_write_addresses.len();
        let n3 = self.unsigned_read_only_addresses.len();
        let signed = n0 + n1;
        w.push(signed as u8);
        w.push(n1 as u8);
        w.push(n3 as u8);
        encode_compact_u16((signed + n2 + n3) as u16, w);
        self.write_table(w);
        match &self.recent_blockhash {
            Some(hash) => {
                write(w, hash.0.as_slice());
            },
            None => {
                let empty: [u8; 32] = [0u8; 32];
                assert(empty@ =~= zeros(32));
                write(w, empty.as_slice());
            },
        }
        encode_compact_u16(self.instructions.len() as u16, w);
        assert(w@ =~= old(w)@ + self@.header_bytes());
    }

    /// Appends the message to `w`.
    fn write_message(&self, w: &mut Vec<u8>) -> (r: Result<(), EncodeError>)
        ensures
            match self@.message_bytes() {
                Ok(bytes) => r is Ok && final(w)@ == old(w)@ + bytes,
                Err(fault) => r matches Err(e) && e@ == fault,
            },
    {
        let ghost tx = self@;
        let n0 = self.signed_read_write_addresses.len();
        let n1 = self.signed_read_only_addresses.len();
        let n2 = self.unsigned_read_write_addresses.len();
        let n3 = self.unsigned_read_only_addresses.len();
        if n0 > 255 || n1 > 255 || n0 + n1 > 255 {
            return Err(EncodeError::TooManySignedAddresses);
        }
        if n3 > 255 {
            return Err(EncodeError::TooManyAddresses);
        }
        let count = self.instructions.len();
        if count > 65535 {
            return Err(EncodeError::TooManyInstructions);
        }
        if n2 > 65535 || n0 + n1 + n2 + n3 > 65535 {
            return Err(EncodeError::TooManyAddresses);
        }
        self.write_header(w);
        let ghost head = w@;
        assert(w@ =~= head + Seq::<u8>::empty());
        let mut k: usize = 0;
        while k < count
            invariant
                k <= count,
                count == self.instructions.len(),
                tx == self@,
                tx.counts_fit(),
                tx.instructions_bytes(k as nat) matches Ok(bytes) && w@ == head + bytes,
            decreases count - k,
        {
            let ghost done = tx.instructions_bytes(k as nat)->Ok_0;
            assert(tx.instructions[k as int] == self.instructions[k as int]@);
            match self.write_instruction(&self.instructions[k], w) {
                Err(e) => {
                    proof {
                        assert(tx.instruction_bytes(tx.instructions[k as int]) is Err);
                        assert(tx.instructions_bytes((k + 1) as nat) is Err);
                        tx.instruction_fault_stays((k + 1) as nat, count as nat);
                    }
                    return Err(e);
                },
                Ok(_) => {
                    proof {
                        let added = tx.instruction_bytes(tx.instructions[k as int])->Ok_0;
                        assert(w@ =~= head + (done + added));
                    }
                },
            }
            k += 1;
        }
        proof {
            let body = tx.instructions_bytes(count as nat)->Ok_0;
            assert(w@ =~= old(w)@ + (tx.header_bytes() + body));
        }
        Ok(())
    }

    /// Writes the message: the bytes that are signed. The signatures of the
    /// slots have no part in it.
    pub fn message(&self) -> (r: Result<Vec<u8>, EncodeError>)
        ensures
            match self@.message_bytes() {
                Ok(bytes) => r matches Ok(v) && v@ == bytes,
                Err(fault) => r matches Err(e) && e@ == fault,
            },
    {
        let mut w: Vec<u8> = Vec::new();
        match self.write_message(&mut w) {
            Ok(_) => {
                assert(w@ =~= self@.message_bytes()->Ok_0);
                Ok(w)
            },
            Err(e) => Err(e),
        }
    }
}

impl Transaction {
    /// Appends the 64 bytes of a slot's signature: zeros where there is none.
    pub fn encode_signature(slot: &PubkeyWithSignature, w: &mut Vec<u8>)
        ensures
            final(w)@ == old(w)@ + signature_bytes(slot@),
    {
        match &slot.signature {
            Some(s) => {
                let bytes = s.to_bytes();
                write(w, bytes.as_slice());
            },
            None => {
                let empty: [u8; 64] = [0u8; 64];
                assert(empty@ =~= zeros(64));
                write(w, empty.as_slice());
            },
        }
    }

    /// Appends the signatures of all slots in table order.
    fn write_signatures(&self, w: &mut Vec<u8>)
        ensures
            final(w)@ == old(w)@ + self@.signatures_bytes(),
    {
        let ghost tx = self@;
        let ghost parts = tx.slots().map_values(|s: SlotView| signature_bytes(s));
        let n0 = self.signed_read_write_addresses.len();
        let n1 = self.signed_read_only_addresses.len();
        assert(concat_all(parts.take(0)) =~= Seq::<u8>::empty());
        assert(w@ =~= old(w)@ + Seq::<u8>::empty());
        let mut i: usize = 0;
        while i < n0
            invariant
                i <= n0,
                n0 == self.signed_read_write_addresses.len(),
                tx == self@,
                parts == tx.slots().map_values(|s: SlotView| signature_bytes(s)),
                w@ == old(w)@ + concat_all(parts.take(i as int)),
            decreases n0 - i,
        {
            proof {
                concat_all_step(parts, i as int);
                assert(parts[i as int] == signature_bytes(
                    self.signed_read_write_addresses[i as int]@,
                ));
            }
            Self::encode_signature(&self.signed_read_write_addresses[i], w);
            assert(w@ =~= old(w)@ + concat_all(parts.take(i + 1)));
            i += 1;
        }
        let mut i: usize = 0;
        while i < n1
            invariant
                i <= n1,
                n0 == self.signed_read_write_addresses.len(),
                n1 == self.signed_read_only_addresses.len(),
                tx == self@,
                parts == tx.slots().map_values(|s: SlotView| signature_bytes(s)),
                w@ == old(w)@ + concat_all(parts.take(n0 + i)),
            decreases n1 - i,
        {
            proof {
                concat_all_step(parts, n0 + i);
                assert(parts[n0 + i] == signature_bytes(
                    self.signed_read_only_addresses[i as int]@,
                ));
            }
            Self::encode_signature(&self.signed_read_only_addresses[i], w);
            assert(w@ =~= old(w)@ + concat_all(parts.take(n0 + i + 1)));
            i += 1;
        }
        assert(parts.take(parts.len() as int) =~= parts);
    }

    /// Writes the whole transaction: the count of its slots, their
    /// signatures, and the message.
    pub fn encode(&self) -> (r: Result<Vec<u8>, EncodeError>)
        ensures
            match self@.encoded_bytes() {
                Ok(bytes) => r matches Ok(v) && v@ == bytes,
                Err(fault) => r matches Err(e) && e@ == fault,
            },
    {
        let n0 = self.signed_read_write_addresses.len();
        let n1 = self.signed_read_only_addresses.len();
        if n0 > 65535 || n1 > 65535 || n0 + n1 > 65535 {
            return Err(EncodeError::TooManyAddresses);
        }
        let total = n0 + n1;
        let mut w: Vec<u8> = Vec::new();
        encode_compact_u16(total as u16, &mut w);
        self.write_signatures(&mut w);
        match self.write_message(&mut w) {
            Ok(_) => {
                assert(w@ =~= self@.encoded_bytes()->Ok_0);
                Ok(w)
            },
            Err(e) => Err(e),
        }
    }
}

/// The signatures of a transaction are written in 64 bytes for each slot,
/// whether the slot holds a signature or not.
pub proof fn signatures_take_64_bytes_each(tx: Transaction)
    ensures
        tx@.signatures_bytes().len() == 64 * tx@.signed_count(),
{
    let parts = tx@.slots().map_values(|s: SlotView| signature_bytes(s));
    let n0 = tx.signed_read_write_addresses@.len();
    assert forall|i: int| 0 <= i < parts.len() implies (#[trigger] parts[i]).len() == 64 by {
        let slot = if i < n0 {
            tx.signed_read_write_addresses@[i]
        } else {
            tx.signed_read_only_addresses@[i - n0]
        };
        assert(tx@.slots()[i] == slot@);
        match slot.signature {
            Some(s) => {
                s.has_64_bytes();
            },
            None => {},
        }
    }
    parts_of_one_width(parts, 64);
}

/// Parts of one width, put one after another, are as long as their number
/// times the width.
pub proof fn parts_of_one_width(parts: Seq<Seq<u8>>, width: nat)
    requires
        forall|i: int| 0 <= i < parts.len() ==> (#[trigger] parts[i]).len() == width,
    ensures
        concat_all(parts).len() == width * parts.len(),
    decreases parts.len(),
{
    if parts.len() > 0 {
        let front = parts.drop_last();
        assert forall|i: int| 0 <= i < front.len() implies (#[trigger] front[i]).len()
            == width by {
            assert(front[i] == parts[i]);
        }
        parts_of_one_width(front, width);
        assert(width * parts.len() == width * front.len() + width) by (nonlinear_arith)
            requires
                parts.len() == front.len() + 1,
        ;
    }
}

} // verus!

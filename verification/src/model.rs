//! The transaction and its parts, each with its mathematical view.

use vstd::prelude::*;
use crate::error::SignatureError;
use crate::trusted::{base58_string, base58_text, signature_from_bytes};

verus! {

/// Whether every byte of `s` is zero.
pub open spec fn all_zero(s: Seq<u8>) -> bool {
    forall|i: int| 0 <= i < s.len() ==> s[i] == 0
}

/// Whether 64 bytes are accepted as an ed25519 signature: the three high bits
/// of the last byte are clear.
pub open spec fn signature_bytes_valid(s: Seq<u8>) -> bool {
    s.len() == 64 && s[63] < 32
}

/// Tells whether every byte of `bytes` is zero.
pub fn is_all_zero(bytes: &[u8]) -> (r: bool)
    ensures
        r == all_zero(bytes@),
{
    let mut i: usize = 0;
    while i < bytes.len()
        invariant
            i <= bytes.len(),
            forall|j: int| 0 <= j < i ==> bytes@[j] == 0,
        decreases bytes.len() - i,
    {
        if bytes[i] != 0 {
            return false;
        }
        i += 1;
    }
    true
}

/// Tells whether two 32-byte identities hold the same bytes.
pub fn same_identity(a: &[u8; 32], b: &[u8; 32]) -> (r: bool)
    ensures
        r == (a@ == b@),
{
    let mut i: usize = 0;
    while i < 32
        invariant
            i <= 32,
            forall|j: int| 0 <= j < i ==> a@[j] == b@[j],
        decreases 32 - i,
    {
        if a[i] != b[i] {
            return false;
        }
        i += 1;
    }
    assert(a@ =~= b@);
    true
}

/// Whether `i` is the first position of `table` that holds `address`.
pub open spec fn is_first_index(table: Seq<Seq<u8>>, address: Seq<u8>, i: int) -> bool {
    &&& 0 <= i < table.len()
    &&& table[i] == address
    &&& forall|j: int| 0 <= j < i ==> table[j] != address
}

/// Whether `table` holds `address`.
pub open spec fn table_holds(table: Seq<Seq<u8>>, address: Seq<u8>) -> bool {
    exists|i: int| 0 <= i < table.len() && table[i] == address
}

/// The first position of `table` that holds `address`, if there is one.
pub open spec fn first_index(table: Seq<Seq<u8>>, address: Seq<u8>) -> Option<int> {
    if table_holds(table, address) {
        Some(choose|i: int| is_first_index(table, address, i))
    } else {
        None
    }
}

/// A 32-byte account identifier. Which role it plays follows from the
/// partition of the address table that holds it.
#[derive(Debug, Clone, Copy, PartialEq, Eq)]
pub struct Address(pub [u8; 32]);

impl View for Address {
    type V = Seq<u8>;

    open spec fn view(&self) -> Seq<u8> {
        self.0@
    }
}

/// A 32-byte account identifier in a slot that must carry a signature. It is
/// the same identity as an `Address` with the same bytes.
#[derive(Debug, Clone, Copy, PartialEq, Eq)]
pub struct Pubkey(pub [u8; 32]);

impl View for Pubkey {
    type V = Seq<u8>;

    open spec fn view(&self) -> Seq<u8> {
        self.0@
    }
}

impl Address {
    /// The base58 text of the address.
    pub fn to_string(&self) -> (r: String)
        ensures
            r@ == base58_text(self@),
    {
        base58_string(self.0.as_slice())
    }

    /// Tells whether the address is the identity of `key`.
    pub fn is_key(&self, key: &Pubkey) -> (r: bool)
        ensures
            r == (self@ == key@),
    {
        same_identity(&self.0, &key.0)
    }
}

impl Pubkey {
    /// The base58 text of the key.
    pub fn to_string(&self) -> (r: String)
        ensures
            r@ == base58_text(self@),
    {
        base58_string(self.0.as_slice())
    }
}

/// A 32-byte block hash.
#[derive(Debug, Clone, Copy, PartialEq, Eq)]
pub struct Sha256Digest(pub [u8; 32]);

impl View for Sha256Digest {
    type V = Seq<u8>;

    open spec fn view(&self) -> Seq<u8> {
        self.0@
    }
}

/// A 64-byte ed25519 signature. A value of this type always holds bytes that
/// `signature_bytes_valid` accepts.
#[derive(Debug, Clone, Copy, PartialEq, Eq)]
pub struct Signature {
    bytes: [u8; 64],
}

impl View for Signature {
    type V = Seq<u8>;

    closed spec fn view(&self) -> Seq<u8> {
        self.bytes@
    }
}

impl Signature {
    #[verifier::type_invariant]
    spec fn well_formed(self) -> bool {
        self.bytes@[63] < 32
    }

    /// The view of a signature has 64 bytes.
    pub proof fn has_64_bytes(self)
        ensures
            self@.len() == 64,
    {
    }

    /// Takes 64 bytes as a signature if they can be one.
    pub fn from_bytes(bytes: &[u8; 64]) -> (r: Result<Signature, SignatureError>)
        ensures
            r is Ok <==> signature_bytes_valid(bytes@),
            r matches Ok(s) ==> s@ == bytes@,
            r matches Err(e) ==> e == SignatureError::Malformed,
    {
        match signature_from_bytes(bytes) {
            Ok(b) => Ok(Signature { bytes: b }),
            Err(_) => Err(SignatureError::Malformed),
        }
    }

    /// The 64 bytes of the signature.
    pub fn to_bytes(&self) -> (r: [u8; 64])
        ensures
            r@ == self@,
            signature_bytes_valid(self@),
    {
        proof {
            use_type_invariant(self);
        }
        self.bytes
    }
}

/// A signing slot: a key, and its signature once it is there.
#[derive(Debug, Clone, Copy, PartialEq, Eq)]
pub struct PubkeyWithSignature {
    pub pubkey: Pubkey,
    pub signature: Option<Signature>,
}

/// The view of a signing slot.
pub struct SlotView {
    pub pubkey: Seq<u8>,
    pub signature: Option<Seq<u8>>,
}

impl View for PubkeyWithSignature {
    type V = SlotView;

    open spec fn view(&self) -> SlotView {
        SlotView {
            pubkey: self.pubkey@,
            signature: match self.signature {
                Some(s) => Some(s@),
                None => None,
            },
        }
    }
}

/// One instruction: the program to run, the accounts it touches, each with
/// the flags `is_signed` and `is_read_write`, and its data.
#[derive(Debug, Clone, PartialEq, Eq)]
pub struct Instruction {
    pub program_address: Address,
    pub addresses: Vec<(Address, bool, bool)>,
    pub data: Vec<u8>,
}

/// The view of an instruction.
pub struct InstructionView {
    pub program_address: Seq<u8>,
    pub addresses: Seq<(Seq<u8>, bool, bool)>,
    pub data: Seq<u8>,
}

/// The view of one address reference of an instruction.
pub open spec fn reference_view(r: (Address, bool, bool)) -> (Seq<u8>, bool, bool) {
    (r.0@, r.1, r.2)
}

impl View for Instruction {
    type V = InstructionView;

    open spec fn view(&self) -> InstructionView {
        InstructionView {
            program_address: self.program_address@,
            addresses: self.addresses@.map_values(|r: (Address, bool, bool)| reference_view(r)),
            data: self.data@,
        }
    }
}

/// A transaction: the four partitions of its address table, the recent
/// block hash if there is one, and its instructions.
#[derive(Debug, Clone, PartialEq, Eq)]
pub struct Transaction {
    pub signed_read_write_addresses: Vec<PubkeyWithSignature>,
    pub signed_read_only_addresses: Vec<PubkeyWithSignature>,
    pub unsigned_read_write_addresses: Vec<Address>,
    pub unsigned_read_only_addresses: Vec<Address>,
    pub recent_blockhash: Option<Sha256Digest>,
    pub instructions: Vec<Instruction>,
}

/// The view of a transaction.
pub struct TransactionView {
    pub signed_read_write: Seq<SlotView>,
    pub signed_read_only: Seq<SlotView>,
    pub unsigned_read_write: Seq<Seq<u8>>,
    pub unsigned_read_only: Seq<Seq<u8>>,
    pub recent_blockhash: Option<Seq<u8>>,
    pub instructions: Seq<InstructionView>,
}

impl View for Transaction {
    type V = TransactionView;

    open spec fn view(&self) -> TransactionView {
        TransactionView {
            signed_read_write: self.signed_read_write_addresses@.map_values(
                |s: PubkeyWithSignature| s@,
            ),
            signed_read_only: self.signed_read_only_addresses@.map_values(
                |s: PubkeyWithSignature| s@,
            ),
            unsigned_read_write: self.unsigned_read_write_addresses@.map_values(|a: Address| a@),
            unsigned_read_only: self.unsigned_read_only_addresses@.map_values(|a: Address| a@),
            recent_blockhash: match self.recent_blockhash {
                Some(h) => Some(h@),
                None => None,
            },
            instructions: self.instructions@.map_values(|i: Instruction| i@),
        }
    }
}

impl TransactionView {
    /// The number of signing slots.
    pub open spec fn signed_count(self) -> nat {
        self.signed_read_write.len() + self.signed_read_only.len()
    }

    /// The number of addresses in the table.
    pub open spec fn address_count(self) -> nat {
        self.signed_count() + self.unsigned_read_write.len() + self.unsigned_read_only.len()
    }

    /// The signing slots in table order.
    pub open spec fn slots(self) -> Seq<SlotView> {
        self.signed_read_write + self.signed_read_only
    }

    /// The address table: the four partitions one after another.
    pub open spec fn table(self) -> Seq<Seq<u8>> {
        self.slots().map_values(|s: SlotView| s.pubkey) + self.unsigned_read_write
            + self.unsigned_read_only
    }

    /// The address at position `i` of the table with the flags of its
    /// partition, `is_signed` and `is_read_write`.
    pub open spec fn address_at(self, i: int) -> Option<(Seq<u8>, bool, bool)> {
        if 0 <= i < self.address_count() {
            let signed = i < self.signed_count();
            let writable = i < self.signed_read_write.len() || (self.signed_count() <= i
                < self.signed_count() + self.unsigned_read_write.len());
            Some((self.table()[i], signed, writable))
        } else {
            None
        }
    }

    /// Whether `i` is the first position of the table that holds `address`.
    pub open spec fn is_first_index_of(self, address: Seq<u8>, i: int) -> bool {
        is_first_index(self.table(), address, i)
    }

    /// Whether position `p` of the table, which one index byte can name,
    /// resolves to `reference`.
    pub open spec fn resolves(self, p: int, reference: (Seq<u8>, bool, bool)) -> bool {
        0 <= p < 256 && self.address_at(p) == Some(reference)
    }

    /// Whether some index byte resolves to `reference`.
    pub open spec fn resolvable(self, reference: (Seq<u8>, bool, bool)) -> bool {
        exists|p: int| self.resolves(p, reference)
    }

    /// Whether instruction `ins` is one that a reader can have built from
    /// this table: its counts are within the limits, and its program and
    /// each of its references is what some index byte resolves to.
    pub open spec fn well_formed_instruction(self, ins: InstructionView) -> bool {
        &&& ins.addresses.len() <= 1190
        &&& ins.data.len() <= 1192
        &&& exists|signed: bool, writable: bool| #[trigger]
            self.resolvable((ins.program_address, signed, writable))
        &&& forall|j: int|
            0 <= j < ins.addresses.len() ==> self.resolvable(#[trigger] ins.addresses[j])
    }

    /// What holds of every transaction that a reader gives: there is a fee
    /// payer, the counts are within the limits of the wire format, every
    /// address has 32 bytes, a signature or block hash that is there is not
    /// all zero, and every instruction refers to the table.
    pub open spec fn well_formed(self) -> bool {
        &&& self.signed_read_write.len() >= 1
        &&& self.signed_count() <= 37
        &&& self.unsigned_read_only.len() <= 255
        &&& self.address_count() <= 65535
        &&& self.instructions.len() <= 65535
        &&& forall|i: int| 0 <= i < self.table().len() ==> (#[trigger] self.table()[i]).len() == 32
        &&& forall|i: int|
            0 <= i < self.slots().len() ==> ((#[trigger] self.slots()[i]).signature matches Some(
                s,
            ) ==> signature_bytes_valid(s) && !all_zero(s))
        &&& self.recent_blockhash matches Some(h) ==> h.len() == 32 && !all_zero(h)
        &&& forall|k: int|
            0 <= k < self.instructions.len() ==> self.well_formed_instruction(
                #[trigger] self.instructions[k],
            )
    }

    /// Whether the table holds `address`.
    pub open spec fn holds(self, address: Seq<u8>) -> bool {
        table_holds(self.table(), address)
    }
}

} // verus!

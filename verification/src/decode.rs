//! Reading a transaction from bytes.
//!
//! The reader goes through the bytes once, front to back. Where the bytes
//! end inside a field the outcome is `Incomplete`; where a field holds what
//! no transaction can hold it is `Fatal`. Whichever comes first decides.

use vstd::prelude::*;
use crate::error::{DecodeError, DecodeFault};
use crate::limits::{
    MAXIMUM_ADDRESSES_COUNT, MAXIMUM_ED25519_SIGNATURES_COUNT,
    MAXIMUM_INSTRUCTION_ADDRESS_INDEX_COUNT, MAXIMUM_INSTRUCTION_DATA_COUNT,
};
use crate::model::{
    all_zero, is_all_zero, reference_view, signature_bytes_valid, Address, Instruction,
    InstructionView, Pubkey, PubkeyWithSignature, Sha256Digest, Signature, SlotView, Transaction,
    TransactionView,
};
use crate::varint::{compact_u16_at, decode_compact_u16};

verus! {

/// What 64 bytes of a signature slot stand for: no signature where all are
/// zero, else the signature they hold, if they can be one.
pub open spec fn signature_of(bytes: Seq<u8>) -> Result<Option<Seq<u8>>, DecodeFault> {
    if all_zero(bytes) {
        Ok(None)
    } else if signature_bytes_valid(bytes) {
        Ok(Some(bytes))
    } else {
        Err(DecodeFault::MalformedSignature)
    }
}

/// The first `n` signature slots of 64 bytes each from `pos` on, read one
/// after another.
pub open spec fn signatures_at(s: Seq<u8>, pos: int, n: nat) -> Result<
    Seq<Option<Seq<u8>>>,
    DecodeError,
>
    decreases n,
{
    if n == 0 {
        Ok(Seq::empty())
    } else {
        match signatures_at(s, pos, (n - 1) as nat) {
            Err(e) => Err(e),
            Ok(signatures) => if pos + 64 * n > s.len() {
                Err(DecodeError::Incomplete)
            } else {
                match signature_of(s.subrange(pos + 64 * (n - 1), pos + 64 * n)) {
                    Err(fault) => Err(DecodeError::Fatal(fault)),
                    Ok(signature) => Ok(signatures.push(signature)),
                }
            },
        }
    }
}

/// What stands in front of the addresses: the signatures, the sizes of the
/// four partitions, and the position of the first address.
pub struct Header {
    pub signatures: Seq<Option<Seq<u8>>>,
    pub signed_read_write: nat,
    pub signed_read_only: nat,
    pub unsigned_read_write: nat,
    pub unsigned_read_only: nat,
    pub next: int,
}

impl Header {
    /// The number of addresses that follow.
    pub open spec fn address_count(self) -> nat {
        self.signed_read_write + self.signed_read_only + self.unsigned_read_write
            + self.unsigned_read_only
    }
}

/// The three count bytes at `pos` and the address count behind them, checked
/// against the number of signatures, `count`.
pub open spec fn counts_at(
    s: Seq<u8>,
    pos: int,
    count: u16,
    signatures: Seq<Option<Seq<u8>>>,
) -> Result<Header, DecodeError> {
    if pos + 3 > s.len() {
        Err(DecodeError::Incomplete)
    } else {
        let signed = s[pos];
        let read_only = s[pos + 1];
        let unsigned_read_only = s[pos + 2];
        if signed > MAXIMUM_ADDRESSES_COUNT {
            Err(DecodeError::Fatal(DecodeFault::TooManySignedAddresses { signed }))
        } else if count > signed {
            Err(
                DecodeError::Fatal(
                    DecodeFault::TooManySignaturesSupplied { signatures: count, signed },
                ),
            )
        } else if read_only > signed {
            Err(DecodeError::Fatal(DecodeFault::TooManySignedReadOnly { signed, read_only }))
        } else if read_only == signed {
            Err(DecodeError::Fatal(DecodeFault::NoFeePayer))
        } else {
            match compact_u16_at(s, pos + 3) {
                None => Err(DecodeError::Incomplete),
                Some((total, next)) => if total < signed + unsigned_read_only {
                    Err(
                        DecodeError::Fatal(
                            DecodeFault::TooFewAddresses {
                                supplied: total,
                                required: (signed + unsigned_read_only) as u16,
                            },
                        ),
                    )
                } else {
                    Ok(
                        Header {
                            signatures,
                            signed_read_write: (signed - read_only) as nat,
                            signed_read_only: read_only as nat,
                            unsigned_read_write: (total - signed - unsigned_read_only) as nat,
                            unsigned_read_only: unsigned_read_only as nat,
                            next,
                        },
                    )
                },
            }
        }
    }
}

/// The header at the front of `s`.
pub open spec fn header_at(s: Seq<u8>) -> Result<Header, DecodeError> {
    match compact_u16_at(s, 0) {
        None => Err(DecodeError::Incomplete),
        Some((count, first)) => if count > MAXIMUM_ED25519_SIGNATURES_COUNT {
            Err(DecodeError::Fatal(DecodeFault::TooManySignatures { count }))
        } else {
            match signatures_at(s, first, count as nat) {
                Err(e) => Err(e),
                Ok(signatures) => counts_at(s, first + 64 * count, count, signatures),
            }
        },
    }
}

/// The `k`-th address of 32 bytes from `start` on.
pub open spec fn address_slice(s: Seq<u8>, start: int, k: int) -> Seq<u8> {
    s.subrange(start + 32 * k, start + 32 * k + 32)
}

/// The `k`-th signing slot: the `k`-th address with the `k`-th signature, or
/// with none where the signatures have run out.
pub open spec fn slot_at(s: Seq<u8>, start: int, signatures: Seq<Option<Seq<u8>>>, k: int)
    -> SlotView {
    SlotView {
        pubkey: address_slice(s, start, k),
        signature: if 0 <= k < signatures.len() {
            signatures[k]
        } else {
            None
        },
    }
}

/// The block hash that 32 bytes stand for: none where all are zero.
pub open spec fn blockhash_of(bytes: Seq<u8>) -> Option<Seq<u8>> {
    if all_zero(bytes) {
        None
    } else {
        Some(bytes)
    }
}

/// The address table and the block hash behind the header `h`, as a
/// transaction without instructions, and the position behind them.
pub open spec fn table_at(s: Seq<u8>, h: Header) -> Result<(TransactionView, int), DecodeError> {
    let end = h.next + 32 * h.address_count();
    if end + 32 > s.len() {
        Err(DecodeError::Incomplete)
    } else {
        Ok(
            (
                TransactionView {
                    signed_read_write: Seq::new(
                        h.signed_read_write,
                        |k: int| slot_at(s, h.next, h.signatures, k),
                    ),
                    signed_read_only: Seq::new(
                        h.signed_read_only,
                        |k: int| slot_at(s, h.next, h.signatures, h.signed_read_write + k),
                    ),
                    unsigned_read_write: Seq::new(
                        h.unsigned_read_write,
                        |k: int|
                            address_slice(s, h.next, h.signed_read_write + h.signed_read_only + k),
                    ),
                    unsigned_read_only: Seq::new(
                        h.unsigned_read_only,
                        |k: int|
                            address_slice(
                                s,
                                h.next,
                                h.signed_read_write + h.signed_read_only + h.unsigned_read_write
                                    + k,
                            ),
                    ),
                    recent_blockhash: blockhash_of(s.subrange(end, end + 32)),
                    instructions: Seq::empty(),
                },
                end + 32,
            ),
        )
    }
}

/// The first `n` address references of instruction number `instruction`,
/// one index byte each from `pos` on, resolved in the table of `tx`.
pub open spec fn references_at(
    tx: TransactionView,
    s: Seq<u8>,
    pos: int,
    n: nat,
    instruction: usize,
) -> Result<Seq<(Seq<u8>, bool, bool)>, DecodeError>
    decreases n,
{
    if n == 0 {
        Ok(Seq::empty())
    } else {
        match references_at(tx, s, pos, (n - 1) as nat, instruction) {
            Err(e) => Err(e),
            Ok(references) => if pos + n > s.len() {
                Err(DecodeError::Incomplete)
            } else {
                match tx.address_at(s[pos + n - 1] as int) {
                    None => Err(
                        DecodeError::Fatal(
                            DecodeFault::InvalidAddressIndex {
                                index: s[pos + n - 1],
                                instruction,
                            },
                        ),
                    ),
                    Some(reference) => Ok(references.push(reference)),
                }
            },
        }
    }
}

/// The data of an instruction at `pos`: its length, then the bytes.
pub open spec fn data_at(s: Seq<u8>, pos: int, instruction: usize) -> Result<
    (Seq<u8>, int),
    DecodeError,
> {
    match compact_u16_at(s, pos) {
        None => Err(DecodeError::Incomplete),
        Some((len, start)) => if len > MAXIMUM_INSTRUCTION_DATA_COUNT {
            Err(
                DecodeError::Fatal(
                    DecodeFault::TooManyInstructionData { instruction, count: len },
                ),
            )
        } else if start + len > s.len() {
            Err(DecodeError::Incomplete)
        } else {
            Ok((s.subrange(start, start + len), start + len))
        },
    }
}

/// Instruction number `instruction` at `pos`, resolved in the table of `tx`,
/// and the position behind it.
pub open spec fn instruction_at(tx: TransactionView, s: Seq<u8>, pos: int, instruction: usize)
    -> Result<(InstructionView, int), DecodeError> {
    if pos < 0 || pos >= s.len() {
        Err(DecodeError::Incomplete)
    } else {
        match tx.address_at(s[pos] as int) {
            None => Err(
                DecodeError::Fatal(
                    DecodeFault::InvalidProgramIndex { index: s[pos], instruction },
                ),
            ),
            Some(program) => match compact_u16_at(s, pos + 1) {
                None => Err(DecodeError::Incomplete),
                Some((count, first)) => if count > MAXIMUM_INSTRUCTION_ADDRESS_INDEX_COUNT {
                    Err(
                        DecodeError::Fatal(
                            DecodeFault::TooManyInstructionAddresses { instruction, count },
                        ),
                    )
                } else {
                    match references_at(tx, s, first, count as nat, instruction) {
                        Err(e) => Err(e),
                        Ok(addresses) => match data_at(s, first + count, instruction) {
                            Err(e) => Err(e),
                            Ok((data, next)) => Ok(
                                (
                                    InstructionView {
                                        program_address: program.0,
                                        addresses,
                                        data,
                                    },
                                    next,
                                ),
                            ),
                        },
                    }
                },
            },
        }
    }
}

/// The first `n` instructions from `pos` on and the position behind them.
pub open spec fn instructions_at(tx: TransactionView, s: Seq<u8>, pos: int, n: nat) -> Result<
    (Seq<InstructionView>, int),
    DecodeError,
>
    decreases n,
{
    if n == 0 {
        Ok((Seq::empty(), pos))
    } else {
        match instructions_at(tx, s, pos, (n - 1) as nat) {
            Err(e) => Err(e),
            Ok((done, at)) => match instruction_at(tx, s, at, (n - 1) as usize) {
                Err(e) => Err(e),
                Ok((ins, next)) => Ok((done.push(ins), next)),
            },
        }
    }
}

/// The transaction that the front of `s` holds, and the number of bytes it
/// takes. Bytes behind it are not looked at.
pub open spec fn decoded_at(s: Seq<u8>) -> Result<(TransactionView, int), DecodeError> {
    match header_at(s) {
        Err(e) => Err(e),
        Ok(h) => match table_at(s, h) {
            Err(e) => Err(e),
            Ok((tx, at)) => match compact_u16_at(s, at) {
                None => Err(DecodeError::Incomplete),
                Some((count, first)) => match instructions_at(tx, s, first, count as nat) {
                    Err(e) => Err(e),
                    Ok((instructions, next)) => Ok(
                        (TransactionView { instructions, ..tx }, next),
                    ),
                },
            },
        },
    }
}

/// The transaction that the front of `s` holds.
pub open spec fn decoded(s: Seq<u8>) -> Result<TransactionView, DecodeError> {
    match decoded_at(s) {
        Err(e) => Err(e),
        Ok((tx, _)) => Ok(tx),
    }
}

/// The view of a signature that may be absent.
pub open spec fn signature_view(signature: Option<Signature>) -> Option<Seq<u8>> {
    match signature {
        Some(s) => Some(s@),
        None => None,
    }
}

/// Copies the `N` bytes at `pos`.
pub fn read<const N: usize>(bytes: &[u8], pos: usize) -> (r: Result<[u8; N], DecodeError>)
    ensures
        pos + N <= bytes@.len() ==> (r matches Ok(a) && a@ == bytes@.subrange(
            pos as int,
            pos + N,
        )),
        pos + N > bytes@.len() ==> r == Err::<[u8; N], DecodeError>(DecodeError::Incomplete),
{
    if pos > bytes.len() || bytes.len() - pos < N {
        return Err(DecodeError::Incomplete);
    }
    let mut buf: [u8; N] = [0u8; N];
    let mut i: usize = 0;
    while i < N
        invariant
            i <= N,
            pos + N <= bytes.len(),
            forall|j: int| 0 <= j < i ==> buf@[j] == bytes@[pos + j],
        decreases N - i,
    {
        buf[i] = bytes[pos + i];
        i += 1;
    }
    assert(buf@ =~= bytes@.subrange(pos as int, pos + N));
    Ok(buf)
}

/// The sizes of the four partitions of the address table.
pub struct Counts {
    pub signed_read_write: usize,
    pub signed_read_only: usize,
    pub unsigned_read_write: usize,
    pub unsigned_read_only: usize,
}

/// The views of signatures that may be absent.
pub open spec fn signature_views(signatures: Seq<Option<Signature>>) -> Seq<Option<Seq<u8>>> {
    signatures.map_values(|o: Option<Signature>| signature_view(o))
}

/// The header that signatures, counts and a position stand for.
pub open spec fn header_of(signatures: Seq<Option<Signature>>, counts: Counts, next: int)
    -> Header {
    Header {
        signatures: signature_views(signatures),
        signed_read_write: counts.signed_read_write as nat,
        signed_read_only: counts.signed_read_only as nat,
        unsigned_read_write: counts.unsigned_read_write as nat,
        unsigned_read_only: counts.unsigned_read_only as nat,
        next,
    }
}

/// A failure among the first `n` signature slots is the failure of any
/// longer run of them.
pub proof fn signatures_failure_stays(s: Seq<u8>, pos: int, n: nat, m: nat)
    requires
        n <= m,
        signatures_at(s, pos, n) is Err,
    ensures
        signatures_at(s, pos, m) == signatures_at(s, pos, n),
    decreases m,
{
    if n < m {
        signatures_failure_stays(s, pos, n, (m - 1) as nat);
    }
}

/// A failure among the first `n` references is the failure of any longer
/// run of them.
pub proof fn references_failure_stays(
    tx: TransactionView,
    s: Seq<u8>,
    pos: int,
    n: nat,
    m: nat,
    instruction: usize,
)
    requires
        n <= m,
        references_at(tx, s, pos, n, instruction) is Err,
    ensures
        references_at(tx, s, pos, m, instruction) == references_at(tx, s, pos, n, instruction),
    decreases m,
{
    if n < m {
        references_failure_stays(tx, s, pos, n, (m - 1) as nat, instruction);
    }
}

/// A failure among the first `n` instructions is the failure of any longer
/// run of them.
pub proof fn instructions_failure_stays(tx: TransactionView, s: Seq<u8>, pos: int, n: nat, m: nat)
    requires
        n <= m,
        instructions_at(tx, s, pos, n) is Err,
    ensures
        instructions_at(tx, s, pos, m) == instructions_at(tx, s, pos, n),
    decreases m,
{
    if n < m {
        instructions_failure_stays(tx, s, pos, n, (m - 1) as nat);
    }
}

impl Transaction {
    /// Reads one signature slot of 64 bytes.
    fn decode_signature(bytes: &[u8], pos: usize) -> (r: Result<Option<Signature>, DecodeError>)
        ensures
            pos + 64 > bytes@.len() ==> r == Err::<Option<Signature>, DecodeError>(
                DecodeError::Incomplete,
            ),
            pos + 64 <= bytes@.len() ==> match signature_of(
                bytes@.subrange(pos as int, pos + 64),
            ) {
                Ok(signature) => r matches Ok(found) && signature_view(found) == signature,
                Err(fault) => r == Err::<Option<Signature>, DecodeError>(
                    DecodeError::Fatal(fault),
                ),
            },
    {
        let buf = match read::<64>(bytes, pos) {
            Ok(buf) => buf,
            Err(e) => {
                return Err(e);
            },
        };
        if is_all_zero(buf.as_slice()) {
            Ok(None)
        } else {
            match Signature::from_bytes(&buf) {
                Ok(signature) => Ok(Some(signature)),
                Err(_) => Err(DecodeError::Fatal(DecodeFault::MalformedSignature)),
            }
        }
    }

    /// Reads `count` signature slots from `pos` on.
    fn decode_signatures(bytes: &[u8], pos: usize, count: u16) -> (r: Result<
        Vec<Option<Signature>>,
        DecodeError,
    >)
        requires
            pos <= bytes@.len(),
        ensures
            match signatures_at(bytes@, pos as int, count as nat) {
                Ok(signatures) => r matches Ok(found) && signature_views(found@) == signatures
                    && pos + 64 * count <= bytes@.len(),
                Err(e) => r matches Err(x) && x == e,
            },
    {
        let mut signatures: Vec<Option<Signature>> = Vec::new();
        let mut at: usize = pos;
        let mut k: u16 = 0;
        assert(signature_views(signatures@) =~= Seq::empty());
        while k < count
            invariant
                k <= count,
                at == pos + 64 * k,
                at <= bytes.len(),
                signatures_at(bytes@, pos as int, k as nat) == Ok::<
                    Seq<Option<Seq<u8>>>,
                    DecodeError,
                >(signature_views(signatures@)),
            decreases count - k,
        {
            let ghost before = signature_views(signatures@);
            match Self::decode_signature(bytes, at) {
                Err(e) => {
                    proof {
                        assert(signatures_at(bytes@, pos as int, (k + 1) as nat) is Err);
                        signatures_failure_stays(
                            bytes@,
                            pos as int,
                            (k + 1) as nat,
                            count as nat,
                        );
                    }
                    return Err(e);
                },
                Ok(signature) => {
                    signatures.push(signature);
                    assert(signature_views(signatures@) =~= before.push(
                        signature_view(signature),
                    ));
                },
            }
            at += 64;
            k += 1;
        }
        Ok(signatures)
    }

    /// Reads what stands in front of the addresses.
    fn decode_header(bytes: &[u8]) -> (r: Result<
        (Vec<Option<Signature>>, Counts, usize),
        DecodeError,
    >)
        ensures
            match header_at(bytes@) {
                Ok(h) => r matches Ok((signatures, counts, next)) && header_of(
                    signatures@,
                    counts,
                    next as int,
                ) == h && next <= bytes@.len() && h.signed_read_write >= 1 && h.signed_read_write
                    + h.signed_read_only <= 37 && h.unsigned_read_only <= 255
                    && h.address_count() <= 65535,
                Err(e) => r matches Err(x) && x == e,
            },
    {
        let (count, first) = match decode_compact_u16(bytes, 0) {
            Ok(found) => found,
            Err(e) => {
                return Err(e);
            },
        };
        if count > MAXIMUM_ED25519_SIGNATURES_COUNT as u16 {
            return Err(DecodeError::Fatal(DecodeFault::TooManySignatures { count }));
        }
        let signatures = match Self::decode_signatures(bytes, first, count) {
            Ok(found) => found,
            Err(e) => {
                return Err(e);
            },
        };
        let at = first + 64 * (count as usize);
        let head = match read::<3>(bytes, at) {
            Ok(found) => found,
            Err(e) => {
                return Err(e);
            },
        };
        let signed: u8 = head[0];
        let read_only: u8 = head[1];
        let unsigned_read_only: u8 = head[2];
        assert(signed == bytes@[at as int] && read_only == bytes@[at + 1] && unsigned_read_only
            == bytes@[at + 2]) by {
            assert(head@[0] == bytes@.subrange(at as int, at + 3)[0]);
            assert(head@[1] == bytes@.subrange(at as int, at + 3)[1]);
            assert(head@[2] == bytes@.subrange(at as int, at + 3)[2]);
        }
        if signed > MAXIMUM_ADDRESSES_COUNT {
            return Err(DecodeError::Fatal(DecodeFault::TooManySignedAddresses { signed }));
        }
        if count > signed as u16 {
            return Err(
                DecodeError::Fatal(
                    DecodeFault::TooManySignaturesSupplied { signatures: count, signed },
                ),
            );
        }
        if read_only > signed {
            return Err(
                DecodeError::Fatal(DecodeFault::TooManySignedReadOnly { signed, read_only }),
            );
        }
        if read_only == signed {
            return Err(DecodeError::Fatal(DecodeFault::NoFeePayer));
        }
        let required: u16 = signed as u16 + unsigned_read_only as u16;
        let (total, next) = match decode_compact_u16(bytes, at + 3) {
            Ok(found) => found,
            Err(e) => {
                return Err(e);
            },
        };
        if total < required {
            return Err(
                DecodeError::Fatal(DecodeFault::TooFewAddresses { supplied: total, required }),
            );
        }
        let counts = Counts {
            signed_read_write: (signed - read_only) as usize,
            signed_read_only: read_only as usize,
            unsigned_read_write: (total - required) as usize,
            unsigned_read_only: unsigned_read_only as usize,
        };
        Ok((signatures, counts, next))
    }

    /// Reads one address of 32 bytes.
    fn decode_address(bytes: &[u8], pos: usize) -> (r: Result<Address, DecodeError>)
        ensures
            pos + 32 <= bytes@.len() ==> (r matches Ok(a) && a@ == bytes@.subrange(
                pos as int,
                pos + 32,
            )),
            pos + 32 > bytes@.len() ==> r == Err::<Address, DecodeError>(DecodeError::Incomplete),
    {
        match read::<32>(bytes, pos) {
            Ok(buf) => Ok(Address(buf)),
            Err(e) => Err(e),
        }
    }

    /// Reads the address of signing slot number `k` and pairs it with the
    /// `k`-th signature, if there is one.
    fn decode_signature_from_header(
        signatures: &Vec<Option<Signature>>,
        k: usize,
        bytes: &[u8],
        pos: usize,
    ) -> (r: Result<PubkeyWithSignature, DecodeError>)
        ensures
            pos + 32 <= bytes@.len() ==> (r matches Ok(slot) && slot@ == SlotView {
                pubkey: bytes@.subrange(pos as int, pos + 32),
                signature: if k < signatures@.len() {
                    signature_view(signatures@[k as int])
                } else {
                    None
                },
            }),
            pos + 32 > bytes@.len() ==> r == Err::<PubkeyWithSignature, DecodeError>(
                DecodeError::Incomplete,
            ),
    {
        let address = match Self::decode_address(bytes, pos) {
            Ok(a) => a,
            Err(e) => {
                return Err(e);
            },
        };
        let signature = if k < signatures.len() {
            signatures[k]
        } else {
            None
        };
        Ok(PubkeyWithSignature { pubkey: Pubkey(address.0), signature })
    }

    /// Reads the 32 bytes of the recent block hash.
    fn decode_recent_blockhash(bytes: &[u8], pos: usize) -> (r: Result<
        Option<Sha256Digest>,
        DecodeError,
    >)
        ensures
            pos + 32 <= bytes@.len() ==> (r matches Ok(found) && match found {
                Some(h) => Some(h@),
                None => None,
            } == blockhash_of(bytes@.subrange(pos as int, pos + 32))),
            pos + 32 > bytes@.len() ==> r == Err::<Option<Sha256Digest>, DecodeError>(
                DecodeError::Incomplete,
            ),
    {
        let buf = match read::<32>(bytes, pos) {
            Ok(buf) => buf,
            Err(e) => {
                return Err(e);
            },
        };
        if is_all_zero(buf.as_slice()) {
            Ok(None)
        } else {
            Ok(Some(Sha256Digest(buf)))
        }
    }
}

impl Transaction {
    /// Reads the address table and the block hash behind the header.
    fn decode_table(
        bytes: &[u8],
        signatures: &Vec<Option<Signature>>,
        counts: &Counts,
        pos: usize,
    ) -> (r: Result<(Transaction, usize), DecodeError>)
        requires
            pos <= bytes@.len(),
            header_of(signatures@, *counts, pos as int).address_count() <= 65535,
        ensures
            match table_at(bytes@, header_of(signatures@, *counts, pos as int)) {
                Ok((tx, next)) => r matches Ok((found, at)) && found@ == tx && at == next && at
                    <= bytes@.len(),
                Err(e) => r matches Err(x) && x == e,
            },
    {
        let ghost s = bytes@;
        let ghost h = header_of(signatures@, *counts, pos as int);
        let ghost start = pos as int;
        let n0 = counts.signed_read_write;
        let n1 = counts.signed_read_only;
        let n2 = counts.unsigned_read_write;
        let n3 = counts.unsigned_read_only;
        let mut signed_read_write: Vec<PubkeyWithSignature> = Vec::new();
        let mut signed_read_only: Vec<PubkeyWithSignature> = Vec::new();
        let mut unsigned_read_write: Vec<Address> = Vec::new();
        let mut unsigned_read_only: Vec<Address> = Vec::new();
        let mut at: usize = pos;
        let mut i: usize = 0;
        while i < n0
            invariant
                i <= n0,
                s == bytes@,
                start == pos,
                at == start + 32 * i,
                at <= bytes.len(),
                h == header_of(signatures@, *counts, pos as int),
                n0 == h.signed_read_write,
                signed_read_write@.len() == i,
                forall|k: int|
                    0 <= k < i ==> (#[trigger] signed_read_write@[k])@ == slot_at(
                        s,
                        start,
                        h.signatures,
                        k,
                    ),
            decreases n0 - i,
        {
            match Self::decode_signature_from_header(signatures, i, bytes, at) {
                Ok(slot) => {
                    signed_read_write.push(slot);
                },
                Err(e) => {
                    return Err(e);
                },
            }
            at += 32;
            i += 1;
        }
        let mut i: usize = 0;
        while i < n1
            invariant
                i <= n1,
                s == bytes@,
                start == pos,
                at == start + 32 * (n0 + i),
                at <= bytes.len(),
                h == header_of(signatures@, *counts, pos as int),
                h.address_count() <= 65535,
                n0 == h.signed_read_write,
                n1 == h.signed_read_only,
                signed_read_only@.len() == i,
                forall|k: int|
                    0 <= k < i ==> (#[trigger] signed_read_only@[k])@ == slot_at(
                        s,
                        start,
                        h.signatures,
                        n0 + k,
                    ),
            decreases n1 - i,
        {
            match Self::decode_signature_from_header(signatures, n0 + i, bytes, at) {
                Ok(slot) => {
                    signed_read_only.push(slot);
                },
                Err(e) => {
                    return Err(e);
                },
            }
            at += 32;
            i += 1;
        }
        let mut i: usize = 0;
        while i < n2
            invariant
                i <= n2,
                s == bytes@,
                start == pos,
                at == start + 32 * (n0 + n1 + i),
                at <= bytes.len(),
                h == header_of(signatures@, *counts, pos as int),
                h.address_count() <= 65535,
                n0 == h.signed_read_write,
                n1 == h.signed_read_only,
                n2 == h.unsigned_read_write,
                unsigned_read_write@.len() == i,
                forall|k: int|
                    0 <= k < i ==> (#[trigger] unsigned_read_write@[k])@ == address_slice(
                        s,
                        start,
                        n0 + n1 + k,
                    ),
            decreases n2 - i,
        {
            match Self::decode_address(bytes, at) {
                Ok(address) => {
                    unsigned_read_write.push(address);
                },
                Err(e) => {
                    return Err(e);
                },
            }
            at += 32;
            i += 1;
        }
        let mut i: usize = 0;
        while i < n3
            invariant
                i <= n3,
                s == bytes@,
                start == pos,
                at == start + 32 * (n0 + n1 + n2 + i),
                at <= bytes.len(),
                h == header_of(signatures@, *counts, pos as int),
                h.address_count() <= 65535,
                n0 == h.signed_read_write,
                n1 == h.signed_read_only,
                n2 == h.unsigned_read_write,
                n3 == h.unsigned_read_only,
                unsigned_read_only@.len() == i,
                forall|k: int|
                    0 <= k < i ==> (#[trigger] unsigned_read_only@[k])@ == address_slice(
                        s,
                        start,
                        n0 + n1 + n2 + k,
                    ),
            decreases n3 - i,
        {
            match Self::decode_address(bytes, at) {
                Ok(address) => {
                    unsigned_read_only.push(address);
                },
                Err(e) => {
                    return Err(e);
                },
            }
            at += 32;
            i += 1;
        }
        let recent_blockhash = match Self::decode_recent_blockhash(bytes, at) {
            Ok(found) => found,
            Err(e) => {
                return Err(e);
            },
        };
        let found = Transaction {
            signed_read_write_addresses: signed_read_write,
            signed_read_only_addresses: signed_read_only,
            unsigned_read_write_addresses: unsigned_read_write,
            unsigned_read_only_addresses: unsigned_read_only,
            recent_blockhash,
            instructions: Vec::new(),
        };
        proof {
            let tx = table_at(s, h)->Ok_0.0;
            assert(found@.signed_read_write =~= tx.signed_read_write);
            assert(found@.signed_read_only =~= tx.signed_read_only);
            assert(found@.unsigned_read_write =~= tx.unsigned_read_write);
            assert(found@.unsigned_read_only =~= tx.unsigned_read_only);
            assert(found@.instructions =~= tx.instructions);
        }
        Ok((found, at + 32))
    }

    /// Reads `count` index bytes from `pos` on and resolves each in the
    /// table of `self`.
    fn decode_references(&self, bytes: &[u8], pos: usize, count: u16, instruction: usize) -> (r:
        Result<Vec<(Address, bool, bool)>, DecodeError>)
        requires
            pos <= bytes@.len(),
        ensures
            match references_at(self@, bytes@, pos as int, count as nat, instruction) {
                Ok(references) => r matches Ok(found) && found@.map_values(
                    |x: (Address, bool, bool)| reference_view(x),
                ) == references && pos + count <= bytes@.len(),
                Err(e) => r matches Err(x) && x == e,
            },
    {
        let ghost tx = self@;
        let mut addresses: Vec<(Address, bool, bool)> = Vec::new();
        let mut at: usize = pos;
        let mut j: u16 = 0;
        assert(addresses@.map_values(|x: (Address, bool, bool)| reference_view(x)) =~= Seq::empty());
        while j < count
            invariant
                j <= count,
                at == pos + j,
                at <= bytes.len(),
                tx == self@,
                references_at(tx, bytes@, pos as int, j as nat, instruction) == Ok::<
                    Seq<(Seq<u8>, bool, bool)>,
                    DecodeError,
                >(addresses@.map_values(|x: (Address, bool, bool)| reference_view(x))),
            decreases count - j,
        {
            let ghost before = addresses@.map_values(|x: (Address, bool, bool)| reference_view(x));
            if at >= bytes.len() {
                proof {
                    assert(references_at(tx, bytes@, pos as int, (j + 1) as nat, instruction)
                        is Err);
                    references_failure_stays(
                        tx,
                        bytes@,
                        pos as int,
                        (j + 1) as nat,
                        count as nat,
                        instruction,
                    );
                }
                return Err(DecodeError::Incomplete);
            }
            let index: u8 = bytes[at];
            match self.find_address_at_index(index) {
                None => {
                    proof {
                        assert(references_at(tx, bytes@, pos as int, (j + 1) as nat, instruction)
                            is Err);
                        references_failure_stays(
                            tx,
                            bytes@,
                            pos as int,
                            (j + 1) as nat,
                            count as nat,
                            instruction,
                        );
                    }
                    return Err(
                        DecodeError::Fatal(
                            DecodeFault::InvalidAddressIndex { index, instruction },
                        ),
                    );
                },
                Some(found) => {
                    addresses.push(found);
                    assert(addresses@.map_values(|x: (Address, bool, bool)| reference_view(x))
                        =~= before.push(reference_view(found)));
                },
            }
            at += 1;
            j += 1;
        }
        Ok(addresses)
    }

    /// Reads the data of an instruction: its length, then the bytes.
    fn decode_data(bytes: &[u8], pos: usize, instruction: usize) -> (r: Result<
        (Vec<u8>, usize),
        DecodeError,
    >)
        ensures
            match data_at(bytes@, pos as int, instruction) {
                Ok((data, next)) => r matches Ok((found, at)) && found@ == data && at == next
                    && at <= bytes@.len(),
                Err(e) => r matches Err(x) && x == e,
            },
    {
        let (len, start) = match decode_compact_u16(bytes, pos) {
            Ok(found) => found,
            Err(e) => {
                return Err(e);
            },
        };
        if len > MAXIMUM_INSTRUCTION_DATA_COUNT {
            return Err(
                DecodeError::Fatal(
                    DecodeFault::TooManyInstructionData { instruction, count: len },
                ),
            );
        }
        if bytes.len() - start < len as usize {
            return Err(DecodeError::Incomplete);
        }
        let end = start + len as usize;
        let mut data: Vec<u8> = Vec::new();
        let mut i: usize = start;
        while i < end
            invariant
                start <= i <= end,
                end <= bytes.len(),
                data@ == bytes@.subrange(start as int, i as int),
            decreases end - i,
        {
            data.push(bytes[i]);
            assert(data@ =~= bytes@.subrange(start as int, i + 1));
            i += 1;
        }
        Ok((data, end))
    }

    /// Reads instruction number `instruction` at `pos` and resolves its
    /// indices in the table of `self`.
    fn decode_instruction(&self, bytes: &[u8], pos: usize, instruction: usize) -> (r: Result<
        (Instruction, usize),
        DecodeError,
    >)
        requires
            pos <= bytes@.len(),
        ensures
            match instruction_at(self@, bytes@, pos as int, instruction) {
                Ok((ins, next)) => r matches Ok((found, at)) && found@ == ins && at == next && at
                    <= bytes@.len(),
                Err(e) => r matches Err(x) && x == e,
            },
    {
        if pos >= bytes.len() {
            return Err(DecodeError::Incomplete);
        }
        let index: u8 = bytes[pos];
        let program = match self.find_address_at_index(index) {
            Some(found) => found,
            None => {
                return Err(
                    DecodeError::Fatal(DecodeFault::InvalidProgramIndex { index, instruction }),
                );
            },
        };
        let (count, first) = match decode_compact_u16(bytes, pos + 1) {
            Ok(found) => found,
            Err(e) => {
                return Err(e);
            },
        };
        if count > MAXIMUM_INSTRUCTION_ADDRESS_INDEX_COUNT {
            return Err(
                DecodeError::Fatal(
                    DecodeFault::TooManyInstructionAddresses { instruction, count },
                ),
            );
        }
        let addresses = match self.decode_references(bytes, first, count, instruction) {
            Ok(found) => found,
            Err(e) => {
                return Err(e);
            },
        };
        let (data, next) = match Self::decode_data(bytes, first + count as usize, instruction) {
            Ok(found) => found,
            Err(e) => {
                return Err(e);
            },
        };
        let found = Instruction { program_address: program.0, addresses, data };
        proof {
            let ins = instruction_at(self@, bytes@, pos as int, instruction)->Ok_0.0;
            assert(found@.addresses =~= ins.addresses);
        }
        Ok((found, next))
    }

    /// Reads a transaction from the front of `bytes`. Bytes behind it are not
    /// looked at. The outcome is `Incomplete` where `bytes` end inside a
    /// field, and `Fatal` where a field holds what no transaction can hold,
    /// whichever the reader meets first.
    pub fn decode(bytes: &[u8]) -> (r: Result<Transaction, DecodeError>)
        ensures
            match decoded(bytes@) {
                Ok(tx) => r matches Ok(found) && found@ == tx && tx.well_formed(),
                Err(e) => r matches Err(x) && x == e,
            },
    {
        proof {
            crate::laws::decoded_is_well_formed(bytes@);
        }
        let (signatures, counts, at) = match Self::decode_header(bytes) {
            Ok(found) => found,
            Err(e) => {
                return Err(e);
            },
        };
        let ghost h = header_of(signatures@, counts, at as int);
        let (mut found, at) = match Self::decode_table(bytes, &signatures, &counts, at) {
            Ok(found) => found,
            Err(e) => {
                return Err(e);
            },
        };
        let ghost table_end = at as int;
        let (count, first) = match decode_compact_u16(bytes, at) {
            Ok(found) => found,
            Err(e) => {
                return Err(e);
            },
        };
        let ghost tx = found@;
        let mut instructions: Vec<Instruction> = Vec::new();
        let mut at: usize = first;
        let mut k: u16 = 0;
        assert(instructions@.map_values(|i: Instruction| i@) =~= Seq::empty());
        while k < count
            invariant
                k <= count,
                at <= bytes.len(),
                tx == found@,
                header_at(bytes@) == Ok::<Header, DecodeError>(h),
                table_at(bytes@, h) == Ok::<(TransactionView, int), DecodeError>((tx, table_end)),
                compact_u16_at(bytes@, table_end) == Some((count, first as int)),
                instructions_at(tx, bytes@, first as int, k as nat) == Ok::<
                    (Seq<InstructionView>, int),
                    DecodeError,
                >((instructions@.map_values(|i: Instruction| i@), at as int)),
            decreases count - k,
        {
            let ghost before = instructions@.map_values(|i: Instruction| i@);
            match found.decode_instruction(bytes, at, k as usize) {
                Err(e) => {
                    proof {
                        assert(instructions_at(tx, bytes@, first as int, (k + 1) as nat) is Err);
                        instructions_failure_stays(
                            tx,
                            bytes@,
                            first as int,
                            (k + 1) as nat,
                            count as nat,
                        );
                    }
                    return Err(e);
                },
                Ok((ins, next)) => {
                    instructions.push(ins);
                    assert(instructions@.map_values(|i: Instruction| i@) =~= before.push(ins@));
                    at = next;
                },
            }
            k += 1;
        }
        found.instructions = instructions;
        proof {
            let want = decoded(bytes@)->Ok_0;
            assert(found@.signed_read_write =~= want.signed_read_write);
            assert(found@.signed_read_only =~= want.signed_read_only);
            assert(found@.unsigned_read_write =~= want.unsigned_read_write);
            assert(found@.unsigned_read_only =~= want.unsigned_read_only);
            assert(found@.instructions =~= want.instructions);
        }
        Ok(found)
    }
}

} // verus!

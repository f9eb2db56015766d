//! Error values of the codec and of key handling.

use vstd::prelude::*;
use crate::model::Address;

verus! {

/// Why a byte stream is not a transaction, whatever bytes may follow.
#[derive(Debug, Clone, Copy, PartialEq, Eq)]
pub enum DecodeFault {
    /// The stream announces more signatures than a packet can hold.
    TooManySignatures { count: u16 },
    /// A signature slot holds bytes that are not an ed25519 signature.
    MalformedSignature,
    /// The header announces more signing addresses than a packet can hold.
    TooManySignedAddresses { signed: u8 },
    /// There are more signatures than signing addresses.
    TooManySignaturesSupplied { signatures: u16, signed: u8 },
    /// There are more read-only signing addresses than signing addresses.
    TooManySignedReadOnly { signed: u8, read_only: u8 },
    /// No writable signing address is left to pay the fee.
    NoFeePayer,
    /// The address count is smaller than the header's counts require.
    TooFewAddresses { supplied: u16, required: u16 },
    /// The program index of an instruction is outside the address table.
    InvalidProgramIndex { index: u8, instruction: usize },
    /// An instruction refers to more addresses than a packet can hold.
    TooManyInstructionAddresses { instruction: usize, count: u16 },
    /// An address index of an instruction is outside the address table.
    InvalidAddressIndex { index: u8, instruction: usize },
    /// An instruction carries more data than a packet can hold.
    TooManyInstructionData { instruction: usize, count: u16 },
}

/// How decoding can fail.
#[derive(Debug, Clone, Copy, PartialEq, Eq)]
pub enum DecodeError {
    /// The input is malformed: discard it.
    Fatal(DecodeFault),
    /// The input ended inside a field: try again with more bytes appended.
    Incomplete,
}

/// Why a transaction cannot be written as bytes.
#[derive(Debug, Clone, Copy, PartialEq, Eq)]
pub enum EncodeError {
    /// There are more addresses than a count of the wire format can hold:
    /// more than 65535 signing slots or addresses in all, or more than 255
    /// unsigned read-only addresses.
    TooManyAddresses,
    /// There are more than 255 signing slots.
    TooManySignedAddresses,
    /// There are more than 65535 instructions.
    TooManyInstructions,
    /// The program of an instruction is not in the address table.
    ProgramAddressNotFound { address: Address },
    /// An account of an instruction is not in the address table.
    AddressNotFound { address: Address },
    /// The program or an account of an instruction stands in the address
    /// table behind position 255, where no index byte reaches.
    AddressIndexTooLarge { address: Address },
    /// An instruction refers to more than 65535 accounts.
    TooManyInstructionAddresses { len: usize },
    /// An instruction carries more data than a packet can hold.
    DataTooLong { len: usize },
}

/// The view of an `EncodeError`.
pub enum EncodeFault {
    TooManyAddresses,
    TooManySignedAddresses,
    TooManyInstructions,
    ProgramAddressNotFound { address: Seq<u8> },
    AddressNotFound { address: Seq<u8> },
    AddressIndexTooLarge { address: Seq<u8> },
    TooManyInstructionAddresses { len: usize },
    DataTooLong { len: usize },
}

impl View for EncodeError {
    type V = EncodeFault;

    open spec fn view(&self) -> EncodeFault {
        match *self {
            EncodeError::TooManyAddresses => EncodeFault::TooManyAddresses,
            EncodeError::TooManySignedAddresses => EncodeFault::TooManySignedAddresses,
            EncodeError::TooManyInstructions => EncodeFault::TooManyInstructions,
            EncodeError::ProgramAddressNotFound { address } => EncodeFault::ProgramAddressNotFound {
                address: address@,
            },
            EncodeError::AddressNotFound { address } => EncodeFault::AddressNotFound {
                address: address@,
            },
            EncodeError::AddressIndexTooLarge { address } => EncodeFault::AddressIndexTooLarge {
                address: address@,
            },
            EncodeError::TooManyInstructionAddresses { len } => {
                EncodeFault::TooManyInstructionAddresses { len }
            },
            EncodeError::DataTooLong { len } => EncodeFault::DataTooLong { len },
        }
    }
}

/// Why bytes are not a signature.
#[derive(Debug, Clone, Copy, PartialEq, Eq)]
pub enum SignatureError {
    /// The three high bits of the last byte are not all clear.
    Malformed,
}

/// Why there is no keypair.
#[derive(Debug, Clone, Copy, PartialEq, Eq)]
pub enum KeyError {
    /// The seed has fewer than 32 bytes.
    SeedTooShort,
    /// The derivation path holds an index that is not hardened.
    ExpectedHardenedIndex { index: u32 },
    /// The bytes of a keypair are not 64 bytes.
    KeypairLength,
    /// The second half of the 64 bytes of a keypair is no point of the
    /// curve, so it is no public key.
    PublicKeyOffCurve,
    /// The key tree gave bytes that are no secret key.
    Ed25519,
}

/// Why a text is not base64.
#[derive(Debug, Clone, Copy, PartialEq, Eq)]
pub enum Base64Error {
    /// A byte that is no base64 symbol, with its offset.
    InvalidByte(usize, u8),
    /// The text has a length that no base64 text has.
    InvalidLength,
    /// The last symbol holds bits that would be lost, with its offset.
    InvalidLastSymbol(usize, u8),
}

/// Why a key file holds no bytes.
#[derive(Debug, Clone, Copy, PartialEq, Eq)]
pub enum KeyFileError {
    /// The value at this position, counted from 0, is not a number from 0
    /// to 255.
    InvalidValue { position: usize },
}

} // verus!

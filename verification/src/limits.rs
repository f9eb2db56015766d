//! Protocol limits that follow from the size of one network packet.

use vstd::prelude::*;

verus! {

/// Largest size of an encoded transaction, in bytes.
pub const MAXIMUM_TRANSACTION_BYTES: u16 = 1232;

/// Largest number of ed25519 signatures that one packet can hold.
pub const MAXIMUM_ED25519_SIGNATURES_COUNT: u8 = 18;

/// Largest number of addresses that one packet can hold.
pub const MAXIMUM_ADDRESSES_COUNT: u8 = 37;

/// Largest number of address references of one instruction.
pub const MAXIMUM_INSTRUCTION_ADDRESS_INDEX_COUNT: u16 = 1190;

/// Largest number of data bytes of one instruction.
pub const MAXIMUM_INSTRUCTION_DATA_COUNT: u16 = 1192;

/// Largest number of instructions that one packet can hold. The decoder does
/// not enforce this bound.
pub const MAXIMUM_INSTRUCTIONS_COUNT: u16 = 397;

} // verus!

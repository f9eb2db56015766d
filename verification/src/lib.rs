//! Offline signing of compact wire-format transactions by several parties.
//!
//! Each party takes a transaction that may already carry signatures, signs
//! for the keys it holds, and hands the result on, until no slot waits for a
//! signature. Every function is verified against a mathematical model of the
//! transaction and of its wire format.
//!
//! - [`varint`]: the count of one to three bytes.
//! - [`model`]: the transaction and its parts, with their views.
//! - [`table`]: from an address to its position in the table and back.
//! - [`decode`] and [`encode`]: from bytes to a transaction and back.
//! - [`signing`]: the keys that still have to sign, and attaching a
//!   signature.
//! - [`keys`], [`keyfile`] and [`keyring`]: from a mnemonic or a key file to
//!   keypairs, the keys at hand, and signing with them.
//! - [`session`]: taking a transaction in line by line.
//! - [`text`]: what the operator reads.
//! - [`laws`], [`order`], [`prefix`] and [`roundtrip`]: what holds of all
//!   this together.
//! - [`trusted`]: the calls into other crates, whose contracts are taken on
//!   trust.

pub mod decode;
pub mod encode;
pub mod error;
pub mod keyfile;
pub mod keyring;
pub mod keys;
pub mod laws;
pub mod limits;
pub mod model;
pub mod order;
pub mod prefix;
pub mod roundtrip;
pub mod session;
pub mod signing;
pub mod table;
pub mod text;
pub mod trusted;
pub mod varint;

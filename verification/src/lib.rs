//! Core of a proof-of-work UTXO ledger.
//!
//! The crate validates transactions against an unspent-output set, applies
//! them atomically, accumulates fees and dispenses the block-author reward,
//! retargets the proof-of-work difficulty over a sliding window of block
//! timestamps, and verifies proof-of-work seals.  Every data structure is
//! given a mathematical model and every operation carries a contract that
//! pins its result down over that model.

pub mod bytes;
pub mod chain;
pub mod chain_spec;
pub mod codec;
pub mod crypto;
pub mod difficulty;
pub mod issuance;
pub mod keys;
pub mod laws;
pub mod ledger;
pub mod pow;
pub mod tx;
pub mod u256;
pub mod utxo_set;
pub mod validate;

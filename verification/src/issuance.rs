//! The issuance schedule: how much new value a block's author is owed,
//! as a pure function of the block number.

use vstd::prelude::*;

verus! {

/// A policy that decides the newly-minted part of the block reward.
pub trait Issuance {
    /// The schedule as a mathematical function.
    spec fn spec_issuance(block: u32) -> u128;

    /// The schedule, computed.
    fn issuance(block: u32) -> (r: u128)
        ensures
            r == Self::spec_issuance(block),
    ;
}

/// No issuance at all: the author earns the fees alone.
impl Issuance for () {
    open spec fn spec_issuance(block: u32) -> u128 {
        0
    }

    fn issuance(block: u32) -> (r: u128) {
        0
    }
}

/// The number of blocks between halvings of the issuance.
pub const HALVING_INTERVAL: u32 = 210_000;

/// The per-block issuance before any halving.
pub const INITIAL_ISSUANCE: u32 = 50;

/// Issuance halving every `HALVING_INTERVAL` blocks, forced to zero once
/// the shift width is exhausted.
pub struct BitcoinHalving;

impl Issuance for BitcoinHalving {
    open spec fn spec_issuance(block: u32) -> u128 {
        let halvings = block / HALVING_INTERVAL;
        if halvings >= 64 {
            0
        } else {
            (INITIAL_ISSUANCE as u128) >> halvings
        }
    }

    fn issuance(block: u32) -> (r: u128) {
        let halvings = block / HALVING_INTERVAL;
        if halvings >= 64 {
            return 0;
        }
        (INITIAL_ISSUANCE as u128) >> halvings
    }
}

} // verus!

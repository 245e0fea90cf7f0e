//! The core's top level: the ledger and the difficulty controller side by
//! side, driven once per block.  At finalization the reward dispenser
//! runs first, so that the author's output is part of the block's
//! resulting state, and the difficulty controller retargets second.

use vstd::prelude::*;
use crate::crypto::blake2b256_of;
use crate::codec::enc_output;
use crate::difficulty::{
    spec_retarget, DifficultyAndTimestamp, DifficultyConfig, DifficultyState,
    DIFFICULTY_ADJUST_WINDOW,
};
use crate::issuance::Issuance;
use crate::ledger::{dispense_post, Ledger, RewardEvent};
use crate::tx::{Output, OutputM};

verus! {

/// The id under which a genesis output is stored: the hash of its
/// canonical encoding.
pub open spec fn genesis_id_of(o: OutputM) -> Seq<u8> {
    blake2b256_of(enc_output(o))
}

/// The unspent-output map seeded from the first `k` genesis outputs.
pub open spec fn genesis_map(outputs: Seq<OutputM>, k: int) -> Map<Seq<u8>, OutputM>
    decreases k,
{
    if k <= 0 {
        Map::empty()
    } else {
        genesis_map(outputs, k - 1).insert(genesis_id_of(outputs[k - 1]), outputs[k - 1])
    }
}

/// The whole core state: the unspent outputs with the reward accumulator,
/// and the difficulty controller.
pub struct Chain {
    pub ledger: Ledger,
    pub difficulty: DifficultyState,
}

impl Chain {
    pub open spec fn wf(self) -> bool {
        self.ledger.wf() && self.difficulty.wf()
    }

    /// Build the chain state from its genesis input: the initial unspent
    /// outputs and the initial difficulty.  A difficulty configuration
    /// whose arithmetic could overflow is refused.
    pub fn new(
        cfg: DifficultyConfig,
        initial_difficulty: u128,
        genesis_outputs: Vec<Output>,
    ) -> (r: Option<Chain>)
        requires
            forall|i: int|
                0 <= i < genesis_outputs@.len() ==> {
                    &&& (#[trigger] genesis_outputs@[i])@.wf()
                    &&& genesis_outputs@[i].value > 0
                },
        ensures
            match r {
                Some(c) => {
                    &&& c.wf()
                    &&& c.ledger.reward_total == 0
                    &&& c.ledger.utxo@ == genesis_map(
                        genesis_outputs@.map_values(|o: Output| o@),
                        genesis_outputs@.len() as int,
                    )
                    &&& c.difficulty.cfg == cfg
                    &&& c.difficulty.current == initial_difficulty
                },
                None => !(cfg.valid() && cfg.min_difficulty <= initial_difficulty
                    <= cfg.max_difficulty),
            },
    {
        let difficulty = match DifficultyState::new(cfg, initial_difficulty) {
            Some(d) => d,
            None => {
                return None;
            },
        };
        let mut ledger = Ledger::new();
        let ghost oms = genesis_outputs@.map_values(|o: Output| o@);
        let n = genesis_outputs.len();
        let mut i: usize = 0;
        let mut genesis_outputs = genesis_outputs;
        proof {
            assert(genesis_map(oms, 0) =~= Map::<Seq<u8>, OutputM>::empty());
        }
        while i < n
            invariant
                i <= n,
                n == genesis_outputs@.len(),
                oms == genesis_outputs@.map_values(|o: Output| o@),
                forall|j: int|
                    0 <= j < n ==> {
                        &&& (#[trigger] genesis_outputs@[j])@.wf()
                        &&& genesis_outputs@[j].value > 0
                    },
                ledger.wf(),
                ledger.reward_total == 0,
                ledger.utxo@ == genesis_map(oms, i as int),
            decreases n - i,
        {
            let o = &genesis_outputs[i];
            let stored = Output { value: o.value, pubkey: crate::bytes::bytes_clone(&o.pubkey) };
            let id = crate::crypto::blake2b_256(&crate::codec::encode_output(o));
            proof {
                assert(stored@ == oms[i as int]);
                assert(id@ == genesis_id_of(oms[i as int]));
            }
            ledger.utxo.put(id, stored);
            i = i + 1;
        }
        Some(Chain { ledger, difficulty })
    }

    /// The difficulty the next block must be mined at.
    pub fn current_difficulty(&self) -> (r: u128)
        ensures
            r == self.difficulty.current,
    {
        self.difficulty.current_difficulty()
    }

    /// Block finalization: dispense the author's reward, then retarget
    /// the difficulty.  The dispenser must run first so that the reward
    /// output is part of the block's resulting unspent set.
    pub fn on_finalize<I: Issuance>(
        &mut self,
        block_number: u32,
        now: u64,
        author: Option<&Vec<u8>>,
    ) -> (r: RewardEvent)
        requires
            old(self).wf(),
            match author {
                Some(a) => a@.len() == crate::tx::PUBKEY_LEN,
                None => true,
            },
            old(self).ledger.reward_total + I::spec_issuance(block_number) <= u128::MAX,
        ensures
            final(self).wf(),
            final(self).ledger.reward_total == 0,
            dispense_post(
                old(self).ledger,
                final(self).ledger,
                block_number,
                I::spec_issuance(block_number),
                match author {
                    Some(a) => Some(a@),
                    None => None,
                },
                r,
            ),
            final(self).difficulty.cfg == old(self).difficulty.cfg,
            final(self).difficulty.window@ == old(self).difficulty.window@.subrange(
                1,
                DIFFICULTY_ADJUST_WINDOW as int,
            ).push(
                Some(
                    DifficultyAndTimestamp {
                        difficulty: old(self).difficulty.current,
                        timestamp: now,
                    },
                ),
            ),
            final(self).difficulty.current == spec_retarget(
                old(self).difficulty.cfg,
                final(self).difficulty.window@,
                old(self).difficulty.initial_difficulty,
            ),
            old(self).difficulty.cfg.min_difficulty <= final(self).difficulty.current <= old(
                self,
            ).difficulty.cfg.max_difficulty,
    {
        let ev = self.ledger.dispense_reward::<I>(block_number, author);
        self.difficulty.on_finalize(now);
        ev
    }
}

} // verus!

//! The difficulty adjustment controller: on every block finalization it
//! shifts a 60-slot window of (timestamp, difficulty) pairs, measures how
//! fast the window's blocks came, damps and clamps that measurement, and
//! retargets the current difficulty, keeping it inside the configured
//! bounds.

use vstd::prelude::*;
use vstd::arithmetic::div_mod::{
    lemma_div_by_self, lemma_div_is_ordered, lemma_fundamental_div_mod_converse,
};
use vstd::arithmetic::mul::{lemma_mul_inequality, lemma_mul_upper_bound};
use crate::u256::{p256, U256};

verus! {

/// The number of past blocks the retargeting window holds.
pub const DIFFICULTY_ADJUST_WINDOW: usize = 60;

/// The smaller of two mathematical integers.
pub open spec fn min_int(a: int, b: int) -> int {
    if a < b {
        a
    } else {
        b
    }
}

/// The larger of two mathematical integers.
pub open spec fn max_int(a: int, b: int) -> int {
    if a > b {
        a
    } else {
        b
    }
}

/// One past block's record in the retargeting window: when it was
/// finalized and at what difficulty it was mined.
#[derive(Clone, Copy, PartialEq, Eq, Structural, Debug)]
pub struct DifficultyAndTimestamp {
    pub difficulty: u128,
    pub timestamp: u64,
}

/// The design-time parameters of the controller.
#[derive(Clone, Copy, PartialEq, Eq, Structural, Debug)]
pub struct DifficultyConfig {
    /// The block time the controller aims at, in milliseconds.
    pub target_block_time: u128,
    /// How strongly the measured time is pulled toward the target.
    pub damp_factor: u128,
    /// The largest factor one retarget may move the measurement by.
    pub clamp_factor: u128,
    /// The difficulty never drops below this.
    pub min_difficulty: u128,
    /// The difficulty never rises above this.
    pub max_difficulty: u128,
}

impl DifficultyConfig {
    /// The bounds under which every intermediate value of the controller
    /// fits the machine arithmetic it uses.
    pub open spec fn valid(self) -> bool {
        &&& 1 <= self.target_block_time <= 0xffffffffffffffffu128
        &&& 2 <= self.damp_factor <= 0x100000000u128
        &&& 2 <= self.clamp_factor <= 0x100000000u128
        &&& 1 <= self.min_difficulty
        &&& self.min_difficulty <= self.max_difficulty
    }
}

/// Move a value linearly toward a goal.
pub fn damp(actual: u128, goal: u128, damp_factor: u128) -> (r: u128)
    requires
        damp_factor >= 1,
        actual + (damp_factor - 1) * goal <= u128::MAX,
    ensures
        r == (actual + (damp_factor - 1) * goal) as int / damp_factor as int,
{
    (actual + (damp_factor - 1) * goal) / damp_factor
}

/// Limit a value to within a factor of a goal.
pub fn clamp(actual: u128, goal: u128, clamp_factor: u128) -> (r: u128)
    requires
        clamp_factor >= 1,
        goal * clamp_factor <= u128::MAX,
    ensures
        r == max_int(
            goal as int / clamp_factor as int,
            min_int(actual as int, (goal * clamp_factor) as int),
        ),
{
    let upper = goal * clamp_factor;
    let lower = goal / clamp_factor;
    let capped = if actual < upper {
        actual
    } else {
        upper
    };
    if lower > capped {
        lower
    } else {
        capped
    }
}

/// Sum of the timestamp deltas over the first `k` window slots, where a
/// pair with an absent end contributes the target time and a backwards
/// pair saturates to zero.
pub open spec fn spec_ts_delta(w: Seq<Option<DifficultyAndTimestamp>>, tbt: u128, k: int) -> int
    decreases k,
{
    if k <= 1 {
        0
    } else {
        spec_ts_delta(w, tbt, k - 1) + match (w[k - 2], w[k - 1]) {
            (Some(p), Some(c)) => if c.timestamp >= p.timestamp {
                c.timestamp - p.timestamp
            } else {
                0
            },
            _ => tbt as int,
        }
    }
}

/// Sum of the difficulties over the first `k` window slots, where an
/// absent slot contributes the initial difficulty.
pub open spec fn spec_diff_sum(w: Seq<Option<DifficultyAndTimestamp>>, initial: u128, k: int) -> int
    decreases k,
{
    if k <= 0 {
        0
    } else {
        spec_diff_sum(w, initial, k - 1) + match w[k - 1] {
            Some(d) => d.difficulty as int,
            None => initial as int,
        }
    }
}

/// The retargeting formula over the already-shifted window, in exact
/// integer arithmetic.
pub open spec fn spec_retarget(cfg: DifficultyConfig, w: Seq<Option<DifficultyAndTimestamp>>, initial: u128) -> int {
    let ts_raw = spec_ts_delta(w, cfg.target_block_time, DIFFICULTY_ADJUST_WINDOW as int);
    let ts_delta: int = if ts_raw == 0 {
        1
    } else {
        ts_raw
    };
    let diff_sum = max_int(
        spec_diff_sum(w, initial, DIFFICULTY_ADJUST_WINDOW as int),
        cfg.min_difficulty as int,
    );
    let window_target: int = (DIFFICULTY_ADJUST_WINDOW as int) * (cfg.target_block_time as int);
    let damped: int = (ts_delta + (cfg.damp_factor as int - 1) * window_target) / (
    cfg.damp_factor as int);
    let adj_ts = max_int(
        window_target / (cfg.clamp_factor as int),
        min_int(damped, window_target * (cfg.clamp_factor as int)),
    );
    min_int(
        cfg.max_difficulty as int,
        max_int(
            cfg.min_difficulty as int,
            diff_sum * (cfg.target_block_time as int) / adj_ts,
        ),
    )
}

/// The controller's state: its parameters, the difficulty the window was
/// seeded with, the current difficulty and the 60-slot history, oldest
/// first.
pub struct DifficultyState {
    pub cfg: DifficultyConfig,
    pub initial_difficulty: u128,
    pub current: u128,
    pub window: Vec<Option<DifficultyAndTimestamp>>,
}

impl DifficultyState {
    pub open spec fn wf(self) -> bool {
        &&& self.cfg.valid()
        &&& self.window@.len() == DIFFICULTY_ADJUST_WINDOW
        &&& self.cfg.min_difficulty <= self.initial_difficulty <= self.cfg.max_difficulty
        &&& self.cfg.min_difficulty <= self.current <= self.cfg.max_difficulty
        &&& forall|i: int|
            0 <= i < self.window@.len() ==> match #[trigger] self.window@[i] {
                Some(d) => self.cfg.min_difficulty <= d.difficulty <= self.cfg.max_difficulty,
                None => true,
            }
    }

    /// Seed the controller: every slot absent, the current difficulty the
    /// genesis one.  A configuration whose arithmetic could overflow, or
    /// an initial difficulty outside the bounds, is refused.
    pub fn new(cfg: DifficultyConfig, initial_difficulty: u128) -> (r: Option<DifficultyState>)
        ensures
            match r {
                Some(s) => {
                    &&& cfg.valid()
                    &&& cfg.min_difficulty <= initial_difficulty <= cfg.max_difficulty
                    &&& s.wf()
                    &&& s.cfg == cfg
                    &&& s.initial_difficulty == initial_difficulty
                    &&& s.current == initial_difficulty
                    &&& forall|i: int|
                        0 <= i < DIFFICULTY_ADJUST_WINDOW ==> #[trigger] s.window@[i] is None
                },
                None => !(cfg.valid() && cfg.min_difficulty <= initial_difficulty
                    <= cfg.max_difficulty),
            },
    {
        let ok = 1 <= cfg.target_block_time && cfg.target_block_time <= 0xffffffffffffffffu128
            && 2 <= cfg.damp_factor && cfg.damp_factor <= 0x100000000u128 && 2 <= cfg.clamp_factor
            && cfg.clamp_factor <= 0x100000000u128 && 1 <= cfg.min_difficulty
            && cfg.min_difficulty <= cfg.max_difficulty && cfg.min_difficulty
            <= initial_difficulty && initial_difficulty <= cfg.max_difficulty;
        if !ok {
            return None;
        }
        let mut window: Vec<Option<DifficultyAndTimestamp>> = Vec::new();
        let mut i: usize = 0;
        while i < DIFFICULTY_ADJUST_WINDOW
            invariant
                i <= DIFFICULTY_ADJUST_WINDOW,
                window@.len() == i,
                forall|j: int| 0 <= j < i ==> #[trigger] window@[j] is None,
            decreases DIFFICULTY_ADJUST_WINDOW - i,
        {
            window.push(None);
            i = i + 1;
        }
        Some(DifficultyState { cfg, initial_difficulty, current: initial_difficulty, window })
    }

    /// The difficulty the consensus layer must mine the next block at.
    pub fn current_difficulty(&self) -> (r: u128)
        ensures
            r == self.current,
    {
        self.current
    }

    /// One retargeting step, run at every block finalization: shift the
    /// window, append the present timestamp with the difficulty it was
    /// mined at, and recompute the current difficulty.  The result always
    /// stays inside the configured bounds.
    #[verifier::loop_isolation(false)]
    pub fn on_finalize(&mut self, now: u64)
        requires
            old(self).wf(),
        ensures
            final(self).wf(),
            final(self).cfg == old(self).cfg,
            final(self).initial_difficulty == old(self).initial_difficulty,
            final(self).window@ == old(self).window@.subrange(
                1,
                DIFFICULTY_ADJUST_WINDOW as int,
            ).push(Some(DifficultyAndTimestamp { difficulty: old(self).current, timestamp: now })),
            final(self).current == spec_retarget(
                old(self).cfg,
                final(self).window@,
                old(self).initial_difficulty,
            ),
            old(self).cfg.min_difficulty <= final(self).current <= old(self).cfg.max_difficulty,
    {
        let ghost w0 = self.window@;
        let current = self.current;

        // shift the window left by one and append the newest slot
        let mut i: usize = 0;
        while i < DIFFICULTY_ADJUST_WINDOW - 1
            invariant
                i <= DIFFICULTY_ADJUST_WINDOW - 1,
                self.window@.len() == DIFFICULTY_ADJUST_WINDOW,
                forall|j: int| 0 <= j < i ==> self.window@[j] == w0[j + 1],
                forall|j: int| i <= j < DIFFICULTY_ADJUST_WINDOW ==> self.window@[j] == w0[j],
                self.cfg == old(self).cfg,
                self.current == old(self).current,
                self.initial_difficulty == old(self).initial_difficulty,
            decreases DIFFICULTY_ADJUST_WINDOW - i,
        {
            let next = self.window[i + 1];
            self.window.set(i, next);
            i = i + 1;
        }
        self.window.set(
            DIFFICULTY_ADJUST_WINDOW - 1,
            Some(DifficultyAndTimestamp { difficulty: current, timestamp: now }),
        );
        proof {
            assert(self.window@ =~= w0.subrange(1, DIFFICULTY_ADJUST_WINDOW as int).push(
                Some(DifficultyAndTimestamp { difficulty: current, timestamp: now }),
            ));
        }
        let ghost w = self.window@;
        let cfg = self.cfg;

        // measured time over the window
        let mut ts_delta: u128 = 0;
        let mut k: usize = 1;
        while k < DIFFICULTY_ADJUST_WINDOW
            invariant
                1 <= k <= DIFFICULTY_ADJUST_WINDOW,
                ts_delta == spec_ts_delta(w, cfg.target_block_time, k as int),
                ts_delta <= (k - 1) as int * 0xffffffffffffffff,
            decreases DIFFICULTY_ADJUST_WINDOW - k,
        {
            let prev = self.window[k - 1];
            let cur = self.window[k];
            let delta: u128 = match (prev, cur) {
                (Some(p), Some(c)) => if c.timestamp >= p.timestamp {
                    (c.timestamp - p.timestamp) as u128
                } else {
                    0
                },
                _ => cfg.target_block_time,
            };
            ts_delta = ts_delta + delta;
            k = k + 1;
        }
        if ts_delta == 0 {
            ts_delta = 1;
        }

        // summed difficulty over the window
        let mut diff_sum = U256::zero();
        let mut k: usize = 0;
        while k < DIFFICULTY_ADJUST_WINDOW
            invariant
                k <= DIFFICULTY_ADJUST_WINDOW,
                diff_sum.as_nat() == spec_diff_sum(w, self.initial_difficulty, k as int),
                diff_sum.as_nat() <= k as int * 0xffffffffffffffffffffffffffffffff,
            decreases DIFFICULTY_ADJUST_WINDOW - k,
        {
            let slot_difficulty: u128 = match self.window[k] {
                Some(d) => d.difficulty,
                None => self.initial_difficulty,
            };
            diff_sum = diff_sum.add_exact(&U256::from_u128(slot_difficulty));
            k = k + 1;
        }
        let min_u256 = U256::from_u128(cfg.min_difficulty);
        if diff_sum.lt(&min_u256) {
            diff_sum = min_u256;
        }
        proof {
            assert(diff_sum.as_nat() == max_int(
                spec_diff_sum(w, self.initial_difficulty, DIFFICULTY_ADJUST_WINDOW as int),
                cfg.min_difficulty as int,
            ));
        }

        // damp and clamp the measurement toward the window target
        let window_target: u128 = 60 * cfg.target_block_time;
        proof {
            assert(window_target == (DIFFICULTY_ADJUST_WINDOW as int) * (
            cfg.target_block_time as int));
        }
        proof {
            // the damped sum and the clamp ceiling fit 128 bits
            lemma_mul_upper_bound(
                cfg.damp_factor as int - 1,
                0x100000000,
                window_target as int,
                (60 * 0xffffffffffffffff) as int,
            );
            lemma_mul_upper_bound(
                window_target as int,
                (60 * 0xffffffffffffffff) as int,
                cfg.clamp_factor as int,
                0x100000000,
            );
        }
        let damped = damp(ts_delta, window_target, cfg.damp_factor);
        let adj_ts = clamp(damped, window_target, cfg.clamp_factor);
        proof {
            // the adjusted time is positive, so the division is defined
            assert((cfg.damp_factor - 1) * window_target >= 1 * window_target) by {
                lemma_mul_inequality(1, cfg.damp_factor as int - 1, window_target as int);
            }
            assert(ts_delta + (cfg.damp_factor - 1) * window_target >= cfg.damp_factor) by {
                assert(window_target >= 60);
                assert((cfg.damp_factor - 1) * window_target >= (cfg.damp_factor - 1) * 60) by {
                    lemma_mul_inequality(60, window_target as int, cfg.damp_factor as int - 1);
                    vstd::arithmetic::mul::lemma_mul_is_commutative(
                        60,
                        cfg.damp_factor as int - 1,
                    );
                    vstd::arithmetic::mul::lemma_mul_is_commutative(
                        window_target as int,
                        cfg.damp_factor as int - 1,
                    );
                }
                assert((cfg.damp_factor - 1) * 60 >= cfg.damp_factor) by {
                    lemma_mul_inequality(1, 60, cfg.damp_factor as int - 1);
                }
            }
            assert(damped >= 1) by {
                lemma_div_is_ordered(
                    cfg.damp_factor as int,
                    ts_delta + (cfg.damp_factor - 1) * window_target,
                    cfg.damp_factor as int,
                );
                lemma_div_by_self(cfg.damp_factor as int);
            }
            assert(window_target * cfg.clamp_factor >= window_target) by {
                lemma_mul_inequality(1, cfg.clamp_factor as int, window_target as int);
                vstd::arithmetic::mul::lemma_mul_is_commutative(
                    cfg.clamp_factor as int,
                    window_target as int,
                );
            }
            assert(adj_ts >= 1);
        }

        // retarget: difficulty = diff_sum * target / adjusted time,
        // clamped into the configured bounds
        proof {
            assert(diff_sum.as_nat() * (cfg.target_block_time as u64) < p256()) by {
                lemma_mul_upper_bound(
                    diff_sum.as_nat() as int,
                    (60 * 0xffffffffffffffffffffffffffffffff) as int,
                    cfg.target_block_time as u64 as int,
                    0xffffffffffffffff,
                );
            }
        }
        let product = diff_sum.mul_u64(cfg.target_block_time as u64);
        let divisor = U256::from_u128(adj_ts);
        let (quotient, remainder) = product.div_rem(&divisor);
        proof {
            lemma_fundamental_div_mod_converse(
                product.as_nat() as int,
                adj_ts as int,
                quotient.as_nat() as int,
                remainder.as_nat() as int,
            );
        }
        let min_bound = U256::from_u128(cfg.min_difficulty);
        let max_bound = U256::from_u128(cfg.max_difficulty);
        let new_difficulty: u128 = if quotient.lt(&min_bound) {
            cfg.min_difficulty
        } else if max_bound.lt(&quotient) {
            cfg.max_difficulty
        } else {
            match quotient.try_to_u128() {
                Some(v) => v,
                None => {
                    // unreachable: the quotient is at most the maximum
                    proof {
                        assert(false);
                    }
                    cfg.max_difficulty
                },
            }
        };
        self.current = new_difficulty;
    }
}

} // verus!

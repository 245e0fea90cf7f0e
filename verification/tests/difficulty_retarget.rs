//! The difficulty controller: damping, clamping, and retargeting over a
//! window of uniform and shocked block times.

use utxo_core::difficulty::{clamp, damp, DifficultyConfig, DifficultyState};

fn config() -> DifficultyConfig {
    DifficultyConfig {
        target_block_time: 60_000,
        damp_factor: 20,
        clamp_factor: 2,
        min_difficulty: 20,
        max_difficulty: u128::MAX,
    }
}

#[test]
fn damp_moves_toward_goal() {
    assert_eq!(damp(0, 100, 2), 50);
    assert_eq!(damp(100, 100, 2), 100);
    assert_eq!(damp(40, 100, 3), (40 + 200) / 3);
    // a one-slot shock is mostly damped away
    assert_eq!(damp(3_480_001, 3_600_000, 20), 3_594_000);
}

#[test]
fn clamp_limits_to_a_factor() {
    assert_eq!(clamp(10, 100, 2), 50);
    assert_eq!(clamp(100, 100, 2), 100);
    assert_eq!(clamp(1000, 100, 2), 200);
    assert_eq!(clamp(170, 100, 2), 170);
}

#[test]
fn rejects_invalid_configuration() {
    let mut cfg = config();
    cfg.damp_factor = 1;
    assert!(DifficultyState::new(cfg, 100).is_none());
    let mut cfg = config();
    cfg.min_difficulty = 0;
    assert!(DifficultyState::new(cfg, 100).is_none());
    let cfg = config();
    assert!(DifficultyState::new(cfg, 1).is_none());
    assert!(DifficultyState::new(cfg, 100).is_some());
}

#[test]
fn first_retarget_exact_value() {
    // a fresh window: 59 absent slots and the newly appended one.
    // ts_delta = 59 * 60000 = 3540000; diff_sum = 60 * 1000000;
    // damped = (3540000 + 2 * 3600000) / 3 = 3580000, not clamped;
    // difficulty = 60000000 * 60000 / 3580000 = 1005586.
    let cfg = DifficultyConfig {
        target_block_time: 60_000,
        damp_factor: 3,
        clamp_factor: 2,
        min_difficulty: 3,
        max_difficulty: u128::MAX,
    };
    let mut state = DifficultyState::new(cfg, 1_000_000).expect("the configuration is sound");
    state.on_finalize(1_000_000);
    assert_eq!(state.current_difficulty(), 1_005_586);
}

#[test]
fn s9_difficulty_converges_then_clamps() {
    let initial: u128 = 1_000_000;
    let mut state = DifficultyState::new(config(), initial).expect("the configuration is sound");
    assert_eq!(state.current_difficulty(), initial);

    // 120 blocks exactly one target apart: the difficulty stays near the
    // initial one (the damped window measurement runs a hair short of the
    // target, so it drifts slightly upward, never past a fifth here)
    let mut now: u64 = 1_000_000_000;
    for _ in 0..120 {
        now += 60_000;
        state.on_finalize(now);
        let d = state.current_difficulty();
        assert!(d >= config().min_difficulty);
        assert!(d >= initial);
        assert!(d <= initial + initial / 5);
    }
    let settled = state.current_difficulty();

    // one absurdly fast block: the clamped, damped window keeps the next
    // difficulty within the configured factor of where it settled, and
    // well under the initial difficulty times the clamp factor
    now += 1;
    state.on_finalize(now);
    let after_shock = state.current_difficulty();
    assert!(after_shock >= config().min_difficulty);
    assert!(after_shock <= initial * config().clamp_factor);
    assert!(after_shock >= settled);
}

#[test]
fn difficulty_stays_within_bounds_under_extremes() {
    let cfg = DifficultyConfig {
        target_block_time: 60_000,
        damp_factor: 2,
        clamp_factor: 2,
        min_difficulty: 2,
        max_difficulty: 1_000,
    };
    let mut state = DifficultyState::new(cfg, 500).expect("the configuration is sound");
    let mut now: u64 = 1;
    // pathological timestamps: equal, backwards-looking saturation, huge gaps
    let deltas: [u64; 6] = [0, 0, 1, 10_000_000_000, 1, 0];
    for _ in 0..40 {
        for d in deltas {
            now = now.saturating_add(d);
            state.on_finalize(now);
            let cur = state.current_difficulty();
            assert!(cfg.min_difficulty <= cur && cur <= cfg.max_difficulty);
        }
    }
}

//! The halving issuance schedule and the finalization sequence.

use utxo_core::chain::Chain;
use utxo_core::difficulty::{DifficultyConfig, DifficultyState};
use utxo_core::issuance::{BitcoinHalving, Issuance};
use utxo_core::ledger::RewardEvent;
use utxo_core::tx::Output;

#[test]
fn halving_schedule_values() {
    assert_eq!(BitcoinHalving::issuance(0), 50);
    assert_eq!(BitcoinHalving::issuance(209_999), 50);
    assert_eq!(BitcoinHalving::issuance(210_000), 25);
    assert_eq!(BitcoinHalving::issuance(419_999), 25);
    assert_eq!(BitcoinHalving::issuance(420_000), 12);
    assert_eq!(BitcoinHalving::issuance(210_000 * 6), 0);
    assert_eq!(BitcoinHalving::issuance(u32::MAX), 0);
}

#[test]
fn zero_issuance_policy() {
    assert_eq!(<() as Issuance>::issuance(0), 0);
    assert_eq!(<() as Issuance>::issuance(123), 0);
}

fn config() -> DifficultyConfig {
    DifficultyConfig {
        target_block_time: 60_000,
        damp_factor: 3,
        clamp_factor: 2,
        min_difficulty: 3,
        max_difficulty: u128::MAX,
    }
}

#[test]
fn genesis_seeds_outputs_and_difficulty() {
    let genesis = vec![
        Output { value: 100, pubkey: vec![1u8; 32] },
        Output { value: 7, pubkey: vec![2u8; 32] },
    ];
    let chain = Chain::new(config(), 1_000, genesis).expect("the genesis input is sound");
    assert_eq!(chain.current_difficulty(), 1_000);
    assert_eq!(chain.ledger.utxo.entries.len(), 2);
    assert_eq!(chain.ledger.reward_total, 0);
    // the window starts with every slot absent
    let fresh = DifficultyState::new(config(), 1_000).unwrap();
    assert!(fresh.window.iter().all(|s| s.is_none()));
}

#[test]
fn finalize_dispenses_then_retargets() {
    let genesis = vec![Output { value: 100, pubkey: vec![1u8; 32] }];
    let mut chain = Chain::new(config(), 1_000, genesis).expect("the genesis input is sound");
    chain.ledger.reward_total = 8;
    let author = vec![9u8; 32];
    let ev = chain.on_finalize::<BitcoinHalving>(0, 60_000, Some(&author));
    match ev {
        RewardEvent::Issued { value, id } => {
            assert_eq!(value, 58);
            let stored = chain.ledger.utxo.get(&id).expect("the reward output is stored");
            assert_eq!(stored.pubkey, author);
        }
        RewardEvent::Wasted => panic!("the reward must be issued"),
    }
    assert_eq!(chain.ledger.reward_total, 0);
    // the newest window slot now carries this block's timestamp
    assert_eq!(
        chain.difficulty.window[59],
        Some(utxo_core::difficulty::DifficultyAndTimestamp { difficulty: 1_000, timestamp: 60_000 })
    );
}

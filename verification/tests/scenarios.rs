//! End-to-end ledger scenarios: spends, rejections, rewards.

use utxo_core::codec::{encode_output, encode_signing_preimage, encode_transaction};
use utxo_core::crypto::{blake2b_256, sr25519_verify};
use utxo_core::issuance::BitcoinHalving;
use utxo_core::ledger::{Ledger, RewardEvent, SpendError};
use utxo_core::tx::{FatalError, Input, Output, RejectReason, Transaction};
use utxo_core::validate::compute_output_id;

fn keypair(seed: u8) -> schnorrkel::Keypair {
    schnorrkel::MiniSecretKey::from_bytes(&[seed; 32])
        .unwrap()
        .expand_to_keypair(schnorrkel::ExpansionMode::Ed25519)
}

fn pubkey(kp: &schnorrkel::Keypair) -> Vec<u8> {
    kp.public.to_bytes().to_vec()
}

fn sign(kp: &schnorrkel::Keypair, msg: &[u8]) -> Vec<u8> {
    kp.sign_simple(b"substrate", msg).to_bytes().to_vec()
}

/// A ledger holding the given outputs, each stored under the hash of its
/// encoding, as at genesis.
fn ledger_with(outputs: &[Output]) -> (Ledger, Vec<Vec<u8>>) {
    let mut ledger = Ledger::new();
    let mut ids = Vec::new();
    for o in outputs {
        let copy = Output { value: o.value, pubkey: o.pubkey.clone() };
        let id = blake2b_256(&encode_output(&copy));
        ids.push(id.clone());
        ledger.utxo.put(id, copy);
    }
    (ledger, ids)
}

/// Sign every input of the transaction with the same key.
fn sign_all(tx: &mut Transaction, kp: &schnorrkel::Keypair) {
    let preimage = encode_signing_preimage(tx);
    let sig = sign(kp, &preimage);
    for input in tx.inputs.iter_mut() {
        input.sigscript = sig.clone();
    }
}

#[test]
fn s1_simple_spend() {
    let alice = keypair(1);
    let (mut ledger, ids) = ledger_with(&[Output { value: 100, pubkey: pubkey(&alice) }]);
    let g = ids[0].clone();
    let mut tx = Transaction {
        inputs: vec![Input { outpoint: g.clone(), sigscript: vec![0u8; 64] }],
        outputs: vec![Output { value: 50, pubkey: pubkey(&alice) }],
    };
    sign_all(&mut tx, &alice);
    let new_id = compute_output_id(&encode_transaction(&tx), 0);
    assert!(ledger.spend(&tx).is_ok());
    assert!(!ledger.utxo.contains(&g));
    let stored = ledger.utxo.get(&new_id).expect("the new output must be stored");
    assert_eq!(stored.value, 50);
    assert_eq!(stored.pubkey, pubkey(&alice));
    assert_eq!(ledger.reward_total, 50);
}

#[test]
fn s2_double_spent_input() {
    let alice = keypair(1);
    let (mut ledger, ids) = ledger_with(&[Output { value: 100, pubkey: pubkey(&alice) }]);
    let g = ids[0].clone();
    let mut tx = Transaction {
        inputs: vec![
            Input { outpoint: g.clone(), sigscript: vec![0u8; 64] },
            Input { outpoint: g.clone(), sigscript: vec![0u8; 64] },
        ],
        outputs: vec![Output { value: 100, pubkey: pubkey(&alice) }],
    };
    sign_all(&mut tx, &alice);
    assert_eq!(
        ledger.spend(&tx),
        Err(SpendError::Reject(RejectReason::DuplicateInput))
    );
}

#[test]
fn s3_duplicate_output() {
    let alice = keypair(1);
    let (mut ledger, ids) = ledger_with(&[Output { value: 100, pubkey: pubkey(&alice) }]);
    let mut tx = Transaction {
        inputs: vec![Input { outpoint: ids[0].clone(), sigscript: vec![0u8; 64] }],
        outputs: vec![
            Output { value: 100, pubkey: pubkey(&alice) },
            Output { value: 100, pubkey: pubkey(&alice) },
        ],
    };
    sign_all(&mut tx, &alice);
    assert_eq!(
        ledger.spend(&tx),
        Err(SpendError::Reject(RejectReason::DuplicateOutput))
    );
}

#[test]
fn s4_over_spend() {
    let alice = keypair(1);
    let (mut ledger, ids) = ledger_with(&[Output { value: 100, pubkey: pubkey(&alice) }]);
    let mut tx = Transaction {
        inputs: vec![Input { outpoint: ids[0].clone(), sigscript: vec![0u8; 64] }],
        outputs: vec![
            Output { value: 100, pubkey: pubkey(&alice) },
            Output { value: 2, pubkey: pubkey(&alice) },
        ],
    };
    sign_all(&mut tx, &alice);
    assert_eq!(ledger.spend(&tx), Err(SpendError::Reject(RejectReason::OverSpend)));
}

#[test]
fn s5_zero_value_output() {
    let alice = keypair(1);
    let (mut ledger, ids) = ledger_with(&[Output { value: 100, pubkey: pubkey(&alice) }]);
    let mut tx = Transaction {
        inputs: vec![Input { outpoint: ids[0].clone(), sigscript: vec![0u8; 64] }],
        outputs: vec![Output { value: 0, pubkey: pubkey(&alice) }],
    };
    sign_all(&mut tx, &alice);
    assert_eq!(ledger.spend(&tx), Err(SpendError::Reject(RejectReason::ZeroOutput)));
}

#[test]
fn s6_output_overflow() {
    let alice = keypair(1);
    let (mut ledger, ids) = ledger_with(&[Output { value: 100, pubkey: pubkey(&alice) }]);
    let mut tx = Transaction {
        inputs: vec![Input { outpoint: ids[0].clone(), sigscript: vec![0u8; 64] }],
        outputs: vec![
            Output { value: u128::MAX, pubkey: pubkey(&alice) },
            Output { value: 10, pubkey: pubkey(&alice) },
        ],
    };
    sign_all(&mut tx, &alice);
    assert_eq!(
        ledger.spend(&tx),
        Err(SpendError::Reject(RejectReason::OutputOverflow))
    );
}

#[test]
fn s7_missing_input_in_mempool() {
    let ledger = Ledger::new();
    let outpoint = vec![7u8; 32];
    let alice = keypair(1);
    let tx = Transaction {
        inputs: vec![Input { outpoint: outpoint.clone(), sigscript: vec![0u8; 64] }],
        outputs: vec![Output { value: 1, pubkey: pubkey(&alice) }],
    };
    let verdict = ledger.validate_for_pool(&tx).expect("pending is not a rejection");
    assert_eq!(verdict.missing, vec![outpoint]);
    assert_eq!(verdict.priority, 0);
    let mut ledger = ledger;
    assert_eq!(
        ledger.spend(&tx),
        Err(SpendError::Reject(RejectReason::MissingInput))
    );
}

#[test]
fn s8_reward_dispense() {
    let bob = keypair(2);
    let mut ledger = Ledger::new();
    ledger.reward_total = 50;
    let author = pubkey(&bob);
    match ledger.dispense_reward::<BitcoinHalving>(0, Some(&author)) {
        RewardEvent::Issued { value, id } => {
            assert_eq!(value, 100);
            let stored = ledger.utxo.get(&id).expect("the reward output must be stored");
            assert_eq!(stored.value, 100);
            assert_eq!(stored.pubkey, author);
        }
        RewardEvent::Wasted => panic!("the reward must be issued"),
    }
    assert_eq!(ledger.reward_total, 0);
}

#[test]
fn reward_wasted_without_author() {
    let mut ledger = Ledger::new();
    ledger.reward_total = 50;
    match ledger.dispense_reward::<BitcoinHalving>(0, None) {
        RewardEvent::Wasted => {}
        RewardEvent::Issued { .. } => panic!("no author may earn nothing"),
    }
    assert_eq!(ledger.reward_total, 0);
    assert!(ledger.utxo.entries.is_empty());
}

#[test]
fn bad_signature_rejected() {
    let alice = keypair(1);
    let (mut ledger, ids) = ledger_with(&[Output { value: 100, pubkey: pubkey(&alice) }]);
    let tx = Transaction {
        inputs: vec![Input { outpoint: ids[0].clone(), sigscript: vec![1u8; 64] }],
        outputs: vec![Output { value: 50, pubkey: pubkey(&alice) }],
    };
    assert_eq!(ledger.spend(&tx), Err(SpendError::Reject(RejectReason::BadSignature)));
}

#[test]
fn wrong_key_signature_rejected() {
    let alice = keypair(1);
    let mallory = keypair(9);
    let (mut ledger, ids) = ledger_with(&[Output { value: 100, pubkey: pubkey(&alice) }]);
    let mut tx = Transaction {
        inputs: vec![Input { outpoint: ids[0].clone(), sigscript: vec![0u8; 64] }],
        outputs: vec![Output { value: 50, pubkey: pubkey(&alice) }],
    };
    sign_all(&mut tx, &mallory);
    assert_eq!(ledger.spend(&tx), Err(SpendError::Reject(RejectReason::BadSignature)));
}

#[test]
fn no_inputs_and_no_outputs_rejected() {
    let alice = keypair(1);
    let (mut ledger, ids) = ledger_with(&[Output { value: 100, pubkey: pubkey(&alice) }]);
    let empty_in = Transaction {
        inputs: vec![],
        outputs: vec![Output { value: 1, pubkey: pubkey(&alice) }],
    };
    assert_eq!(ledger.spend(&empty_in), Err(SpendError::Reject(RejectReason::NoInputs)));
    let mut empty_out = Transaction {
        inputs: vec![Input { outpoint: ids[0].clone(), sigscript: vec![0u8; 64] }],
        outputs: vec![],
    };
    sign_all(&mut empty_out, &alice);
    assert_eq!(ledger.spend(&empty_out), Err(SpendError::Reject(RejectReason::NoOutputs)));
}

#[test]
fn input_overflow_rejected() {
    let alice = keypair(1);
    let (mut ledger, ids) = ledger_with(&[
        Output { value: u128::MAX, pubkey: pubkey(&alice) },
        Output { value: 10, pubkey: pubkey(&alice) },
    ]);
    let mut tx = Transaction {
        inputs: vec![
            Input { outpoint: ids[0].clone(), sigscript: vec![0u8; 64] },
            Input { outpoint: ids[1].clone(), sigscript: vec![0u8; 64] },
        ],
        outputs: vec![Output { value: 1, pubkey: pubkey(&alice) }],
    };
    sign_all(&mut tx, &alice);
    assert_eq!(
        ledger.spend(&tx),
        Err(SpendError::Reject(RejectReason::InputOverflow))
    );
}

#[test]
fn output_collision_rejected() {
    let alice = keypair(1);
    let (mut ledger, ids) = ledger_with(&[Output { value: 100, pubkey: pubkey(&alice) }]);
    let mut tx = Transaction {
        inputs: vec![Input { outpoint: ids[0].clone(), sigscript: vec![0u8; 64] }],
        outputs: vec![Output { value: 60, pubkey: pubkey(&alice) }],
    };
    sign_all(&mut tx, &alice);
    // occupy exactly the id the transaction's output would take
    let colliding = compute_output_id(&encode_transaction(&tx), 0);
    ledger.utxo.put(colliding, Output { value: 5, pubkey: pubkey(&alice) });
    assert_eq!(
        ledger.spend(&tx),
        Err(SpendError::Reject(RejectReason::OutputCollision))
    );
}

#[test]
fn chained_spend_within_block() {
    // an output created by one transaction is spendable by the next
    let alice = keypair(1);
    let (mut ledger, ids) = ledger_with(&[Output { value: 100, pubkey: pubkey(&alice) }]);
    let mut tx1 = Transaction {
        inputs: vec![Input { outpoint: ids[0].clone(), sigscript: vec![0u8; 64] }],
        outputs: vec![Output { value: 80, pubkey: pubkey(&alice) }],
    };
    sign_all(&mut tx1, &alice);
    let mid = compute_output_id(&encode_transaction(&tx1), 0);
    assert!(ledger.spend(&tx1).is_ok());
    let mut tx2 = Transaction {
        inputs: vec![Input { outpoint: mid, sigscript: vec![0u8; 64] }],
        outputs: vec![Output { value: 70, pubkey: pubkey(&alice) }],
    };
    sign_all(&mut tx2, &alice);
    assert!(ledger.spend(&tx2).is_ok());
    assert_eq!(ledger.reward_total, 30);
}

#[test]
fn ready_verdict_means_spendable() {
    // mempool monotonicity on concrete values: an empty `requires` list
    // from the pool validator means the strict path accepts
    let alice = keypair(1);
    let (mut ledger, ids) = ledger_with(&[Output { value: 100, pubkey: pubkey(&alice) }]);
    let mut tx = Transaction {
        inputs: vec![Input { outpoint: ids[0].clone(), sigscript: vec![0u8; 64] }],
        outputs: vec![Output { value: 40, pubkey: pubkey(&alice) }],
    };
    sign_all(&mut tx, &alice);
    let verdict = ledger.validate_for_pool(&tx).expect("the transaction is valid");
    assert!(verdict.missing.is_empty());
    assert_eq!(verdict.priority, 60);
    assert!(ledger.spend(&tx).is_ok());
}

#[test]
fn resigning_preserves_preimage_and_validity() {
    // the signing preimage ignores sigscripts: re-signing yields a
    // signature that still verifies, and the preimage is unchanged
    let alice = keypair(1);
    let (ledger, ids) = ledger_with(&[Output { value: 100, pubkey: pubkey(&alice) }]);
    let mut tx = Transaction {
        inputs: vec![Input { outpoint: ids[0].clone(), sigscript: vec![0u8; 64] }],
        outputs: vec![Output { value: 50, pubkey: pubkey(&alice) }],
    };
    sign_all(&mut tx, &alice);
    let preimage_signed = encode_signing_preimage(&tx);
    let fresh_sig = sign(&alice, &preimage_signed);
    tx.inputs[0].sigscript = fresh_sig.clone();
    assert_eq!(encode_signing_preimage(&tx), preimage_signed);
    assert!(sr25519_verify(&fresh_sig, &preimage_signed, &pubkey(&alice)));
    let mut ledger = ledger;
    assert!(ledger.spend(&tx).is_ok());
}

#[test]
fn mutating_a_field_invalidates_signatures() {
    let alice = keypair(1);
    let (mut ledger, ids) = ledger_with(&[Output { value: 100, pubkey: pubkey(&alice) }]);
    let mut tx = Transaction {
        inputs: vec![Input { outpoint: ids[0].clone(), sigscript: vec![0u8; 64] }],
        outputs: vec![Output { value: 50, pubkey: pubkey(&alice) }],
    };
    sign_all(&mut tx, &alice);
    tx.outputs[0].value = 49;
    assert_eq!(ledger.spend(&tx), Err(SpendError::Reject(RejectReason::BadSignature)));
}

#[test]
fn determinism_across_runs() {
    // identical initial state and an identical transaction leave two
    // ledgers byte-identical; the signature is randomized, so one fixed
    // signature is used for both runs
    let alice = keypair(1);
    let (mut l1, ids) = ledger_with(&[Output { value: 100, pubkey: pubkey(&alice) }]);
    let (mut l2, _) = ledger_with(&[Output { value: 100, pubkey: pubkey(&alice) }]);
    let mut tx = Transaction {
        inputs: vec![Input { outpoint: ids[0].clone(), sigscript: vec![0u8; 64] }],
        outputs: vec![Output { value: 50, pubkey: pubkey(&alice) }],
    };
    let preimage = encode_signing_preimage(&tx);
    tx.inputs[0].sigscript = sign(&alice, &preimage);
    assert!(l1.spend(&tx).is_ok());
    assert!(l2.spend(&tx).is_ok());
    assert_eq!(l1.utxo.entries, l2.utxo.entries);
    assert_eq!(l1.reward_total, l2.reward_total);
}

#[test]
fn fatal_reward_overflow_reported() {
    let alice = keypair(1);
    let (mut ledger, ids) = ledger_with(&[Output { value: 100, pubkey: pubkey(&alice) }]);
    ledger.reward_total = u128::MAX;
    let mut tx = Transaction {
        inputs: vec![Input { outpoint: ids[0].clone(), sigscript: vec![0u8; 64] }],
        outputs: vec![Output { value: 50, pubkey: pubkey(&alice) }],
    };
    sign_all(&mut tx, &alice);
    assert_eq!(
        ledger.spend(&tx),
        Err(SpendError::Fatal(FatalError::RewardOverflow))
    );
    // all-or-nothing: the set is untouched
    assert!(ledger.utxo.contains(&ids[0]));
    assert_eq!(ledger.reward_total, u128::MAX);
}

#[test]
fn value_is_conserved_across_a_block() {
    // no silent money creation on concrete values: stored value plus the
    // accumulator moves only by the issuance at finalization
    let alice = keypair(1);
    let bob = keypair(2);
    let (mut ledger, ids) = ledger_with(&[
        Output { value: 100, pubkey: pubkey(&alice) },
        Output { value: 30, pubkey: pubkey(&alice) },
    ]);
    let total_before: u128 = ledger.utxo.entries.iter().map(|(_, o)| o.value).sum();
    assert_eq!(total_before, 130);

    let mut tx = Transaction {
        inputs: vec![Input { outpoint: ids[0].clone(), sigscript: vec![0u8; 64] }],
        outputs: vec![Output { value: 90, pubkey: pubkey(&alice) }],
    };
    sign_all(&mut tx, &alice);
    assert!(ledger.spend(&tx).is_ok());
    let total_mid: u128 = ledger.utxo.entries.iter().map(|(_, o)| o.value).sum();
    assert_eq!(total_mid + ledger.reward_total, 130);

    let author = pubkey(&bob);
    match ledger.dispense_reward::<BitcoinHalving>(0, Some(&author)) {
        RewardEvent::Issued { value, .. } => assert_eq!(value, 10 + 50),
        RewardEvent::Wasted => panic!("the reward must be issued"),
    }
    let total_after: u128 = ledger.utxo.entries.iter().map(|(_, o)| o.value).sum();
    // exactly the issuance of 50 was created
    assert_eq!(total_after + ledger.reward_total, 130 + 50);
}

#[test]
fn stored_ids_stay_pairwise_distinct() {
    let alice = keypair(1);
    let (mut ledger, ids) = ledger_with(&[Output { value: 100, pubkey: pubkey(&alice) }]);
    let mut tx = Transaction {
        inputs: vec![Input { outpoint: ids[0].clone(), sigscript: vec![0u8; 64] }],
        outputs: vec![
            Output { value: 60, pubkey: pubkey(&alice) },
            Output { value: 30, pubkey: pubkey(&alice) },
        ],
    };
    sign_all(&mut tx, &alice);
    assert!(ledger.spend(&tx).is_ok());
    let author = pubkey(&alice);
    ledger.dispense_reward::<BitcoinHalving>(0, Some(&author));
    let keys: Vec<&Vec<u8>> = ledger.utxo.entries.iter().map(|(k, _)| k).collect();
    for i in 0..keys.len() {
        for j in 0..i {
            assert_ne!(keys[i], keys[j]);
        }
    }
}

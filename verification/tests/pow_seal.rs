//! The proof-of-work seal: mining, verification, and rejection of
//! tampered seals.

use utxo_core::pow::{
    decode_seal, encode_seal, hash_meets_difficulty, pow_verify, Compute, Seal,
};
use utxo_core::u256::U256;

/// Mine a nonce for the given pre-hash and difficulty by counting.
fn mine(pre_hash: &[u8], difficulty: &U256) -> Seal {
    let mut counter: u64 = 0;
    loop {
        let mut nonce = vec![0u8; 32];
        nonce[..8].copy_from_slice(&counter.to_le_bytes());
        let attempt = Compute {
            difficulty: *difficulty,
            pre_hash: pre_hash.to_vec(),
            nonce,
        };
        let seal = attempt.compute();
        if hash_meets_difficulty(&seal.work, difficulty) {
            return seal;
        }
        counter += 1;
        assert!(counter < 1_000_000, "a work hash below the bound must appear");
    }
}

#[test]
fn s10_pow_verify_accepts_and_rejects() {
    // the pre-hash 0x00...01; a difficulty of 2^16 admits roughly all
    // but one in 65536 work hashes, so mining by counting ends fast
    let mut pre_hash = vec![0u8; 32];
    pre_hash[31] = 1;
    let difficulty = U256::from_u128(1 << 16);
    let seal = mine(&pre_hash, &difficulty);
    let bytes = encode_seal(&seal);
    assert!(pow_verify(&pre_hash, &bytes, &difficulty));

    // flipping any bit of the stored work makes the verifier reject
    for byte in 32..64 {
        let mut tampered = bytes.clone();
        tampered[byte] ^= 0x01;
        assert!(!pow_verify(&pre_hash, &tampered, &difficulty));
    }
    // a flipped nonce bit no longer matches the recomputed work
    let mut tampered = bytes.clone();
    tampered[64] ^= 0x80;
    assert!(!pow_verify(&pre_hash, &tampered, &difficulty));
    // a flipped difficulty bit contradicts the chain's demand
    let mut tampered = bytes.clone();
    tampered[0] ^= 0x01;
    assert!(!pow_verify(&pre_hash, &tampered, &difficulty));
    // a different pre-hash never matches the work
    let mut other = pre_hash.clone();
    other[0] = 0xff;
    assert!(!pow_verify(&other, &bytes, &difficulty));
}

#[test]
fn undecodable_seals_are_refused() {
    let pre_hash = vec![0u8; 32];
    let difficulty = U256::from_u64(1);
    assert!(!pow_verify(&pre_hash, &vec![0u8; 95], &difficulty));
    assert!(decode_seal(&vec![0u8; 95]).is_none());
    assert!(decode_seal(&vec![0u8; 96]).is_some());
}

#[test]
fn seal_encoding_round_trips() {
    let seal = Seal {
        difficulty: U256 { lo: 7, hi: 3 },
        work: (0..32).collect(),
        nonce: (32..64).collect(),
    };
    let bytes = encode_seal(&seal);
    assert_eq!(bytes.len(), 96);
    let decoded = decode_seal(&bytes).expect("the canonical bytes decode");
    assert_eq!(decoded.difficulty, seal.difficulty);
    assert_eq!(decoded.work, seal.work);
    assert_eq!(decoded.nonce, seal.nonce);
    // trailing bytes are ignored, as the wire decoder ignores them
    let mut longer = bytes.clone();
    longer.push(0xff);
    assert!(decode_seal(&longer).is_some());
}

#[test]
fn difficulty_predicate_edges() {
    // difficulty zero admits every hash
    assert!(hash_meets_difficulty(&vec![0xff; 32], &U256::zero()));
    // difficulty one admits every hash: no product can overflow
    assert!(hash_meets_difficulty(&vec![0xff; 32], &U256::one()));
    // the all-zero hash meets any difficulty
    assert!(hash_meets_difficulty(&vec![0u8; 32], &U256::max_value()));
    // a hash of exactly 2^16 fails difficulty 2^240
    let mut hash = vec![0u8; 32];
    hash[29] = 1;
    let hard = U256 { lo: 0, hi: 1 << (240 - 128) };
    assert!(!hash_meets_difficulty(&hash, &hard));
    // while a hash just below 2^16 passes it
    let mut small = vec![0u8; 32];
    small[30] = 0xff;
    small[31] = 0xff;
    assert!(hash_meets_difficulty(&small, &hard));
}

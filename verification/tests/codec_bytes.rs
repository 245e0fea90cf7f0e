//! Shape and determinism of the canonical encoding.

use utxo_core::codec::{
    encode_output, encode_signing_preimage, encode_transaction,
};
use utxo_core::crypto::{blake2b_256, sha3_256};
use utxo_core::tx::{Input, Output, Transaction};

fn sample_tx() -> Transaction {
    Transaction {
        inputs: vec![
            Input { outpoint: vec![0xaa; 32], sigscript: vec![0xbb; 64] },
            Input { outpoint: vec![0xcc; 32], sigscript: vec![0xdd; 64] },
        ],
        outputs: vec![Output { value: 0x0102, pubkey: vec![0xee; 32] }],
    }
}

#[test]
fn transaction_encoding_layout() {
    let tx = sample_tx();
    let enc = encode_transaction(&tx);
    // 8 (input count) + 2*96 (inputs) + 8 (output count) + 48 (output)
    assert_eq!(enc.len(), 8 + 192 + 8 + 48);
    // counts are little-endian 64-bit
    assert_eq!(&enc[0..8], &[2, 0, 0, 0, 0, 0, 0, 0]);
    assert_eq!(&enc[8..40], &[0xaa; 32][..]);
    assert_eq!(&enc[40..104], &[0xbb; 64][..]);
    assert_eq!(&enc[200..208], &[1, 0, 0, 0, 0, 0, 0, 0]);
    // the output: 16 value bytes little-endian, then the key
    assert_eq!(&enc[208..224], &[0x02, 0x01, 0, 0, 0, 0, 0, 0, 0, 0, 0, 0, 0, 0, 0, 0]);
    assert_eq!(&enc[224..256], &[0xee; 32][..]);
}

#[test]
fn output_encoding_layout() {
    let enc = encode_output(&Output { value: 256, pubkey: vec![0x11; 32] });
    assert_eq!(enc.len(), 48);
    assert_eq!(&enc[0..16], &[0, 1, 0, 0, 0, 0, 0, 0, 0, 0, 0, 0, 0, 0, 0, 0]);
    assert_eq!(&enc[16..48], &[0x11; 32][..]);
}

#[test]
fn preimage_zeroes_every_sigscript() {
    let tx = sample_tx();
    let pre = encode_signing_preimage(&tx);
    let mut zeroed = sample_tx();
    for input in zeroed.inputs.iter_mut() {
        input.sigscript = vec![0u8; 64];
    }
    assert_eq!(pre, encode_transaction(&zeroed));
    // and it ignores whatever the sigscripts held
    let mut other = sample_tx();
    other.inputs[0].sigscript = vec![0x77; 64];
    assert_eq!(encode_signing_preimage(&other), pre);
}

#[test]
fn encoding_is_deterministic() {
    let tx = sample_tx();
    assert_eq!(encode_transaction(&tx), encode_transaction(&sample_tx()));
    assert_eq!(encode_signing_preimage(&tx), encode_signing_preimage(&sample_tx()));
}

#[test]
fn encoding_separates_values() {
    let tx = sample_tx();
    let mut other = sample_tx();
    other.outputs[0].value += 1;
    assert_ne!(encode_transaction(&tx), encode_transaction(&other));
}

#[test]
fn digests_transform_their_input() {
    // each hash is 32 bytes and differs from a 32-byte input
    let data = vec![0x5a; 32];
    let b = blake2b_256(&data);
    let s = sha3_256(&data);
    assert_eq!(b.len(), 32);
    assert_eq!(s.len(), 32);
    assert_ne!(b, data);
    assert_ne!(s, data);
    assert_ne!(b, s);
    // deterministic, and sensitive to every byte
    assert_eq!(blake2b_256(&data), b);
    let mut tweaked = data.clone();
    tweaked[31] ^= 1;
    assert_ne!(blake2b_256(&tweaked), b);
    assert_ne!(sha3_256(&tweaked), s);
}

//! Parsing miner keys from hexadecimal, and chain-name selection.

use utxo_core::chain_spec::Alternative;
use utxo_core::keys::{parse_sr25519_public_key, KeyParseError};

#[test]
fn parses_a_well_formed_key() {
    let text = "000102030405060708090a0b0c0d0e0f101112131415161718191a1b1c1d1e1F";
    let key = parse_sr25519_public_key(text).expect("64 hex digits are a key");
    assert_eq!(key.len(), 32);
    assert_eq!(key[0], 0);
    assert_eq!(key[1], 1);
    assert_eq!(key[10], 0x0a);
    assert_eq!(key[31], 0x1f);
}

#[test]
fn rejects_bad_hex_and_bad_length() {
    assert_eq!(
        parse_sr25519_public_key("zz"),
        Err(KeyParseError::InvalidHex)
    );
    assert_eq!(
        parse_sr25519_public_key("abc"),
        Err(KeyParseError::InvalidHex)
    );
    assert_eq!(
        parse_sr25519_public_key("abcd"),
        Err(KeyParseError::WrongLength)
    );
    assert_eq!(parse_sr25519_public_key(""), Err(KeyParseError::WrongLength));
}

#[test]
fn hex_parse_agrees_with_reference_decoder() {
    let text = "deadBEEF00ff";
    let ours = parse_sr25519_public_key(text);
    assert_eq!(ours, Err(KeyParseError::WrongLength));
    let reference = hex::decode(text).expect("valid hex");
    assert_eq!(reference, vec![0xde, 0xad, 0xbe, 0xef, 0x00, 0xff]);
    let full: String = text.repeat(6).chars().take(64).collect();
    let ours = parse_sr25519_public_key(&full).expect("64 digits");
    assert_eq!(ours, hex::decode(&full).unwrap());
}

#[test]
fn chain_name_selection() {
    assert_eq!(Alternative::from("dev"), Some(Alternative::Development));
    assert_eq!(Alternative::from(""), Some(Alternative::LocalTestnet));
    assert_eq!(Alternative::from("local"), Some(Alternative::LocalTestnet));
    assert_eq!(Alternative::from("mainnet"), None);
    assert_eq!(Alternative::from("Dev"), None);
}

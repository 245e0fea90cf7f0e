[package]
name = "utxo_core"
version = "0.1.0"
edition = "2021"
publish = false

[dependencies]
sha3 = "0.10"
blake2 = "0.10"
schnorrkel = "0.11"
rand = "0.8"
hex = "0.4"

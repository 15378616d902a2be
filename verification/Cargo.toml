[package]
name = "utxo_scanner"
version = "0.1.0"
edition = "2021"
publish = false

[dependencies]
rust-crypto = "0.2"
rust-base58 = "0.0.4"
secp256k1 = "*"
bitcoin-bech32 = "0.12"
leveldb = "0.8"
db-key = "0.0.5"
rocksdb = "*"

[package]
name = "pq_bitcoin"
version = "0.1.0"
edition = "2021"
publish = false

[dependencies]
bitcoin_hashes = "*"
secp256k1 = "*"
sha3 = "*"
rand = "*"

[dev-dependencies]
alloy-sol-types = "*"

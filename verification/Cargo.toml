[package]
name = "v1tx"
version = "0.1.0"
edition = "2021"
publish = false

[dependencies]
bincode = "1"
serde = "1"
serde_derive = "1"
solana-compute-budget-interface = "2"
solana-hash = { version = "2", features = ["serde"] }
solana-message = { version = "2", features = ["serde", "bincode"] }
solana-pubkey = { version = "2", features = ["serde"] }
solana-short-vec = "2"

[package]
name = "solana_runtime"
version = "0.1.0"
edition = "2021"
publish = false

[dependencies]
solana-sdk = "=1.18.26"

[dev-dependencies]
bincode = "1.3"

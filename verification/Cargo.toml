[package]
name = "transaction_scheduler"
version = "0.1.0"
edition = "2021"
publish = false

[dependencies]
min-max-heap = "1.3"
crossbeam-channel = "0.5"
rand = "0.8"
solana-sdk = "1.18"

[package]
name = "score_ledger"
version = "0.1.0"
edition = "2021"
publish = false

[dependencies]
cosmwasm-std = "*"
cw2 = "*"
serde = { version = "*", features = ["derive"] }

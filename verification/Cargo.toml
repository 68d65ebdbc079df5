[package]
name = "vote_ledger"
version = "0.1.0"
edition = "2021"
publish = false

[dependencies]
secret-cosmwasm-std = "*"
secret-toolkit = "*"
serde = { version = "1", features = ["derive"] }

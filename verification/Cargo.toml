[package]
name = "nft_ledger"
version = "0.1.0"
edition = "2021"
publish = false

[dependencies]
candid = "*"
crc32fast = "*"
hex = "*"
ic-cdk = "*"
ic-ledger-types = "*"
serde = { version = "*", features = ["derive"] }

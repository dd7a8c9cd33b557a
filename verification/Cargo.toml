[package]
name = "wallet"
version = "0.1.0"
edition = "2021"
publish = false

[dependencies]
candid = "*"
hex = "0.4"
ic-cdk = "*"
ic-cdk-macros = "*"
ic-ledger-types = "*"
serde = { version = "1", features = ["derive"] }
sha2 = "0.10"

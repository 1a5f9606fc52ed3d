[package]
name = "ledger"
version = "0.1.0"
edition = "2021"
publish = false

[dependencies]
bincode = "1.3"
bs58 = "0.5"
chrono = { version = "0.4", default-features = false, features = ["clock"] }
hex = "0.4"
rand = "0.8"
secp256k1 = "0.20"
serde = { version = "1", features = ["derive"] }
sha2 = "0.10"

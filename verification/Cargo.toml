[package]
name = "oracle_escrow"
version = "0.3.0"
edition = "2021"
publish = false

[dependencies]
soroban-sdk = { version = "=25.3.2", features = ["testutils"] }
serde_json = "1"

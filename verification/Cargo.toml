[package]
name = "single_rwa_vault"
version = "0.1.0"
edition = "2021"
publish = false

[dependencies]
soroban-sdk = { version = "=29.0.1", features = ["testutils"] }

[dev-dependencies]
soroban-sdk = { version = "=29.0.1", features = ["testutils"] }

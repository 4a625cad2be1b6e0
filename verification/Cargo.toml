[package]
name = "rapid_loan"
version = "0.1.0"
edition = "2021"
publish = false

[dependencies]
soroban-sdk = { version = "*", features = ["alloc", "testutils"] }

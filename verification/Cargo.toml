[package]
name = "zk_recovery"
version = "0.1.0"
edition = "2021"
publish = false

[dependencies]
ark-bn254 = "=0.3.0"
ark-ec = "=0.3.0"
ark-ff = "=0.3.0"
ark-groth16 = "=0.3.0"
near-sdk = "=5.29.1"
serde = { version = "1", features = ["derive"] }
serde-json-wasm = "=1.0.1"

[dev-dependencies]
uint = "=0.9.5"

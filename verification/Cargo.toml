[package]
name = "spacemesh_sdk"
version = "0.1.0"
edition = "2021"
publish = false

[dependencies]
ed25519-dalek-bip32 = "0.2"
solana-sdk = { version = "*", default-features = false }
hidapi = "*"
parking_lot = "*"
log = "*"
thiserror = "*"
wasm-bindgen = "*"

[package]
name = "witness_encryption"
version = "0.1.0"
edition = "2021"
publish = false

[dependencies]
blstrs = "=0.7.1"
ff = "=0.13.1"
group = "=0.13.0"
pairing = "=0.23.0"
rand = "=0.8.8"
sha3 = "=0.10.9"
serde = { version = "1", features = ["derive"] }
serde-wasm-bindgen = "*"
wasm-bindgen = "0.2"

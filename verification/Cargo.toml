[package]
name = "evm2"
version = "0.1.0"
edition = "2021"
publish = false

[dependencies]
alloy-primitives = { version = "=1.7.3", default-features = false, features = ["std", "rlp"] }
alloy-eip7928 = "=0.4.11"
bitvec = "=1.1.1"
thiserror = "=2.0.21"

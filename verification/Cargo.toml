[package]
name = "private_dao"
version = "0.1.0"
edition = "2021"
publish = false

[dependencies]
ecies = { version = "=0.2.3", default-features = false, features = ["pure"] }
hex = "=0.4.3"
hkdf = "=0.12.4"
libsecp256k1 = "=0.7.2"
near-sdk = { version = "=5.29.1", features = ["legacy", "non-contract-usage"] }
schemars = "=0.8.22"
serde = { version = "=1.0.229", features = ["derive"] }
serde_json = "=1.0.154"
sha2 = "=0.10.9"

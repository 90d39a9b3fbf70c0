[package]
name = "stdcode"
version = "0.1.0"
edition = "2021"
publish = false

[dependencies]
base32 = "*"
blake3 = "*"
bytes = "*"
ed25519-consensus = "*"
rand = "0.8"

[dev-dependencies]
serde_json = "*"

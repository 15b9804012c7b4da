[package]
name = "multisig"
version = "0.1.0"
edition = "2021"
publish = false

[dependencies]
parity-codec = "*"
blake2-rfc = "*"

[dev-dependencies]
ed25519-dalek = "*"

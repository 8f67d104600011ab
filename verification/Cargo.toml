[package]
name = "lez_signature_bench"
version = "0.1.0"
edition = "2021"
publish = false

[dependencies]
k256 = { version = "=0.13.4", features = ["ecdsa", "schnorr"] }
p256 = { version = "=0.13.2", features = ["ecdsa"] }
ed25519-dalek = "=2.2.0"
sha2 = "=0.10.9"
tiny-keccak = { version = "=2.0.2", features = ["keccak"] }
hbs-lms = "=0.1.1"
hex = "=0.4.3"
serde = { version = "=1.0.229", features = ["derive"] }
serde_json = "=1.0.154"
clap = { version = "=4.6.7", features = ["derive"] }
bincode = "1"
risc0-zkvm = "3.0.5"

[package]
name = "svarog_core"
version = "0.1.0"
edition = "2021"
publish = false

[dependencies]
serde_json = "=1.0.151"
serde-pickle = "*"
num-bigint = "=0.4.8"
k256 = "=0.13.4"
curve25519-dalek = "=4.1.3"
erreur = "=0.2.1"
bip32 = "=0.5.3"
tokio = { version = "*", features = ["rt", "rt-multi-thread", "macros", "fs"] }
clap = "*"

[dev-dependencies]
sha2 = "*"

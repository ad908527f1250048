[package]
name = "exochain"
version = "0.1.0"
edition = "2021"
publish = false

[dependencies]
blake3 = { version = "=1.8.7", features = ["pure"] }
ed25519-dalek = { version = "=2.2.0", features = ["rand_core"] }
bs58 = "=0.5.1"
hex = "=0.4.3"
serde = { version = "=1.0.229", features = ["derive"] }
thiserror = "=1.0.69"
async-trait = "=0.1.92"
tokio = { version = "=1.54.1", features = ["rt", "sync", "macros", "io-util"] }
tracing = { version = "=0.1.44", default-features = false, features = ["std"] }
async-graphql = { version = "=7.2.1", default-features = false }
libp2p = { version = "=0.57.1", default-features = false, features = ["tcp", "noise", "yamux", "ping", "tokio", "macros"] }

[dev-dependencies]
rand = "=0.8.8"
serde_cbor = "=0.11.2"

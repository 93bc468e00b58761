[package]
name = "iroha"
version = "0.1.0"
edition = "2021"
publish = false

[dependencies]
blake2 = "=0.10.6"
crossbeam = "=0.8.5"
dashmap = "=4.0.2"
ed25519-dalek = "=2.2.0"
futures = "=0.3.34"
parity-scale-codec = "=2.3.1"
serde = { version = "=1.0.229", features = ["derive"] }
serde_json = "=1.0.154"
tokio = { version = "=1.54.1", features = ["io-util", "macros", "net", "rt", "rt-multi-thread", "sync", "time"] }

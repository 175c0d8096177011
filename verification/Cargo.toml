[package]
name = "sc-proof-of-time"
version = "0.1.0"
edition = "2021"
publish = false

[dependencies]
blake2 = "0.10"
parking_lot = "0.12"
futures = "0.3"
tokio = { version = "1", features = ["sync"] }
tracing = "0.1"

[dev-dependencies]
parity-scale-codec = "3"

[package]
name = "crayon"
version = "0.1.0"
edition = "2021"
publish = false

[dependencies]
async-trait = "0.1"
bincode = "1.3"
blake3 = { version = "1", features = ["rayon"] }
bytes = "1"
core_affinity = "0.8"
futures = "0.3"
hex = "0.4"
memmap2 = "0.9"
parking_lot = "0.12"
serde = { version = "1", features = ["derive", "rc"] }
serde_json = "1"
tokio = { version = "1", features = ["full"] }
tracing = "0.1"
tracing-subscriber = { version = "0.3", features = ["env-filter"] }
uuid = { version = "1", features = ["v4", "serde"] }

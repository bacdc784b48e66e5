[package]
name = "hybrid_events"
version = "0.1.0"
edition = "2021"
publish = false

[dependencies]
alloy-primitives = "1"
alloy-rlp = "0.3"
crc32fast = "1"
serde_json = "1"
tokio = { version = "1", features = ["macros", "rt", "sync"] }

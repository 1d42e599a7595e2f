[package]
name = "chain_sync"
version = "0.1.0"
edition = "2021"
publish = false

[dependencies]
anyhow = "1"
futures = "0.3"
libp2p = { version = "0.53", default-features = false, features = ["gossipsub", "kad"] }
tiny-keccak = { version = "2", features = ["keccak"] }
tokio = { version = "1", features = ["rt", "sync"] }
tokio-stream = "0.1"

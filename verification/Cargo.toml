[package]
name = "dht_node"
version = "0.1.0"
edition = "2021"
publish = false

[dependencies]
tokio = { version = "1", features = ["rt-multi-thread", "macros", "io-std", "io-util", "sync", "time"] }
futures = "0.3"
libp2p = { version = "0.53", default-features = false, features = ["tokio", "tcp", "noise", "yamux", "ed25519", "macros"] }

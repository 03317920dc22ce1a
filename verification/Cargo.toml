[package]
name = "terra_link"
version = "0.1.0"
edition = "2021"
publish = false

[dependencies]
libp2p = { version = "*", default-features = false, features = ["tokio", "tcp", "quic", "noise", "yamux", "gossipsub", "identify", "kad", "relay", "dcutr", "autonat", "ping", "macros", "ed25519"] }
tokio = { version = "*", features = ["rt-multi-thread", "macros", "sync", "time"] }
futures = "*"

[package]
name = "ishishnet"
version = "0.1.0"
edition = "2021"
publish = false

[dependencies]
sha2 = "*"
rand = "*"
tokio = { version = "*", features = ["full"] }
libp2p = { version = "*", features = ["tokio", "gossipsub", "mdns", "noise", "tcp", "yamux", "macros"] }
futures = "*"
tracing-subscriber = { version = "*", features = ["env-filter"] }

[package]
name = "partynet"
version = "0.1.0"
edition = "2021"
publish = false

[dependencies]
libp2p = { version = "*", default-features = false, features = ["tokio", "tcp", "noise", "yamux", "gossipsub", "macros", "ed25519"] }
futures = "*"
tokio = { version = "*", default-features = false, features = ["rt"] }

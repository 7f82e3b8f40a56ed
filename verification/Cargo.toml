[package]
name = "wg_p2p"
version = "0.1.0"
edition = "2021"
publish = false

[dependencies]
anyhow = "1"
rust-ini = "*"
tokio = { version = "1", features = ["io-util", "macros", "net", "rt", "sync"] }

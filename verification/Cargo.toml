[package]
name = "netns_kit"
version = "0.1.0"
edition = "2021"
publish = false

[dependencies]
anyhow = "1"
ipnet = "2"
log = "0.4"
serde = { version = "1", features = ["derive"] }
serde_json = "1"
tokio = { version = "1", features = ["process", "fs", "io-util", "rt", "macros"] }
wireguard-keys = "*"

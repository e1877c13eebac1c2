[package]
name = "vpn_tunnel"
version = "0.1.0"
edition = "2021"
publish = false

[dependencies]
bytes = "1"
humantime = "2"
tokio = { version = "1", features = ["rt-multi-thread", "net", "io-util", "sync", "macros"] }

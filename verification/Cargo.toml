[package]
name = "bagua-net"
version = "0.1.0"
edition = "2021"
publish = false

[dependencies]
anyhow = "1"
bincode = "1.3"
flume = "0.10"
nix = "0.23"
serde = { version = "1", features = ["derive"] }
thread-priority = "*"
tracing = "0.1"

[package]
name = "union_core"
version = "0.1.0"
edition = "2021"
publish = false

[dependencies]
anyhow = "1"
clap = { version = "4", features = ["derive"] }
futures = "0.3"
libp2p = { version = "0.56", features = ["autonat", "dcutr", "dns", "ed25519", "identify", "kad", "macros", "mdns", "noise", "ping", "quic", "relay", "tcp", "tokio", "yamux"] }
libp2p-stream = "0.4.0-alpha"
openraft = { version = "0.9", features = ["serde", "storage-v2"] }
prost = "0.14"
serde = { version = "1", features = ["derive"] }
serde_json = "1"
sha2 = "0.10"
tempfile = "3"
thiserror = "2"
tokio = { version = "1", features = ["full"] }
tokio-util = { version = "0.7", features = ["compat"] }
tracing = "0.1"
tracing-subscriber = { version = "0.3", features = ["env-filter"] }
uuid = { version = "1", features = ["v4"] }

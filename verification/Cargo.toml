[package]
name = "libp2p-kad-fastboot"
version = "0.1.0"
edition = "2021"
publish = false

[dependencies]
libp2p = { version = "0.56", default-features = false, features = ["tokio", "quic", "dns", "kad", "identify", "macros", "memory-connection-limits", "serde", "ed25519"] }
anyhow = "1"
clap = { version = "4", features = ["derive", "env"] }
futures = "0.3"
serde_json = "1"
signal-hook = "0.3"
signal-hook-tokio = { version = "0.3", features = ["futures-v0_3"] }
tokio = { version = "1", features = ["full"] }
tracing = "0.1"
tracing-subscriber = "0.3"

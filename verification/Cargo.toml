[package]
name = "nle_core"
version = "0.1.0"
edition = "2021"
publish = false

[dependencies]
rangemap = "*"
uuid = { version = "*", features = ["v4"] }
tokio = { version = "*", features = ["sync", "rt-multi-thread", "macros"] }
serde = { version = "*", features = ["derive"] }
anyhow = "*"
env_logger = "*"

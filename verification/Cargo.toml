[package]
name = "block_transfer"
version = "0.1.0"
edition = "2021"
publish = false

[dependencies]
solana-sdk = "2"
tokio = { version = "1", features = ["rt-multi-thread", "macros"] }
futures = "*"
serde = { version = "*", features = ["derive"] }
serde_yaml = "*"
env_logger = "*"
log = "*"

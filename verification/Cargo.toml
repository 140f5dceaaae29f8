[package]
name = "lob_analytics"
version = "0.1.0"
edition = "2021"
publish = false

[dependencies]
anyhow = "*"
chrono = "*"
env_logger = "*"
futures-util = "*"
log = "*"
polars = { version = "*", default-features = false, features = ["parquet"] }
serde = { version = "*", features = ["derive"] }
serde_json = "*"
tokio = { version = "*", features = ["rt-multi-thread", "macros", "time", "sync", "signal"] }
tokio-tungstenite = "*"

[package]
name = "rate_limit_retry"
version = "0.1.0"
edition = "2021"
publish = false

[dependencies]
serde_json = "1"
rand = "0.8"
tokio = { version = "1", default-features = false, features = ["time"] }
log = "0.4"
chrono = { version = "0.4", default-features = false, features = ["clock"] }
dirs = "*"
axum = { version = "*", default-features = false }
reqwest = { version = "*", default-features = false }

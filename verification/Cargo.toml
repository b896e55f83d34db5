[package]
name = "dy_xhs"
version = "0.1.0"
edition = "2021"
publish = false

[dependencies]
md5 = "0.7"
rc4 = "0.1"
regex = "1"
tokio = { version = "1", features = ["full"] }
axum = "0.7"
mobc = "*"
mobc-redis = "*"
reqwest = { version = "0.12", features = ["json"] }
rust-ini = "*"
serde = { version = "1", features = ["derive"] }
serde_json = "1"
validator = { version = "*", features = ["derive"] }
chrono = "0.4"

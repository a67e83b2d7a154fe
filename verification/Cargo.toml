[package]
name = "redis_lite"
version = "0.1.0"
edition = "2021"
publish = false

[dependencies]
lzf = "*"
rand = "0.8"
anyhow = "1"
futures = "0.3"
tokio = { version = "1", features = ["full"] }

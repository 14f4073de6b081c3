[package]
name = "redis_server"
version = "0.1.0"
edition = "2021"
publish = false

[dependencies]
anyhow = "*"
clap = { version = "*", features = ["derive"] }
tokio = { version = "*", features = ["full"] }

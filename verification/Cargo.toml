[package]
name = "tmp"
version = "0.1.0"
edition = "2021"
publish = false

[dependencies]
clap = { version = "*", features = ["derive"] }
env_logger = "*"
eyre = "*"
log = "*"
serde = { version = "*", features = ["derive"] }
serde_yaml = "*"

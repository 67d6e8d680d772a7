[package]
name = "taxonate"
version = "0.1.0"
edition = "2021"
publish = false

[dependencies]
glob = "*"
ignore = "*"
clap = "*"
env_logger = "*"
log = "*"
serde = { version = "*", features = ["derive"] }
serde_json = "*"

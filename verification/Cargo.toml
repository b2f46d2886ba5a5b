[package]
name = "regen"
version = "0.1.0"
edition = "2021"
publish = false

[dependencies]
anyhow = "1"
env_logger = "0.11"
log = "0.4"
rustdoc-types = "*"
serde = { version = "1", features = ["derive"] }
serde_json = "1"
thiserror = "1"

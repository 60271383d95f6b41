[package]
name = "store_things"
version = "0.1.0"
edition = "2021"
publish = false

[dependencies]
anyhow = "1"
clap = "4"
env_logger = "*"
log = "0.4"
serde = { version = "1", features = ["derive"] }
sha2 = "0.10"
toml = "*"

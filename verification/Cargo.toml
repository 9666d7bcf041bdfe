[package]
name = "teams"
version = "0.1.0"
edition = "2021"
publish = false

[dependencies]
log = "0.4"
env_logger = "*"
ctrlc = "*"

[dev-dependencies]
serde_json = "1"

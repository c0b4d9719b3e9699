[package]
name = "lana_khora"
version = "0.1.0"
edition = "2021"
publish = false

[dependencies]
anyhow = "=1.0.104"
bytemuck = { version = "=1.25.2", features = ["derive"] }
env_logger = "=0.11.11"
log = "=0.4.35"
serde_json = "=1.0.154"

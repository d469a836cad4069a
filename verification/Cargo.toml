[package]
name = "pastelink"
version = "0.1.0"
edition = "2021"
publish = false

[dependencies]
serde_json = "=1.0.151"
chrono = "=0.4.45"
webrtc = "=0.14.0"
tokio = { version = "=1.53.2", features = ["full"] }
anyhow = "=1.0.104"
clap = { version = "=4.6.7", features = ["derive"] }
env_logger = "=0.11.11"
log = "=0.4.34"

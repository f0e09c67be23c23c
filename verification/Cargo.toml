[package]
name = "d4_server"
version = "0.1.0"
edition = "2021"
publish = false

[dependencies]
serde_json = "=1.0.154"
serde = "=1.0.229"
serde_derive = "=1.0.229"
clap = "=2.34.0"
d4 = "=0.2.18"
env_logger = "=0.11.11"
tokio = { version = "=1.54.1", features = ["rt"] }
warp = { version = "=0.3.7", default-features = false }

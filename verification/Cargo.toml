[package]
name = "convey"
version = "0.1.0"
edition = "2021"
publish = false

[dependencies]
rand = "0.8"
orion = "*"
base64 = "0.13"
actix-web = "4"
redis = { version = "0.23", features = ["tokio-comp", "connection-manager"] }
serde = { version = "1", features = ["derive"] }
serde_json = "1"
log = "0.4"
env_logger = "0.10"
thiserror = "1"

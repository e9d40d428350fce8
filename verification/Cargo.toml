[package]
name = "ttt_registry"
version = "0.1.0"
edition = "2021"
publish = false

[dependencies]
async-std = { version = "1", features = ["attributes"] }
env_logger = "0.11"
futures-util = "0.3"
petname = "1"
serde = "1"
serde_derive = "1"
serde_json = "1"
tide = "0.16"
tide-websockets = "0.4"

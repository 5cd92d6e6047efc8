[package]
name = "script_lang"
version = "0.1.0"
edition = "2021"
publish = false

[dependencies]
colored = "2"
anyhow = "1"
log = "0.4"
env_logger = "0.11"
serde = { version = "1", features = ["derive"] }
serde_json = "1"
indexmap = "2"
uuid = { version = "1", features = ["v4"] }
rodio = "0.19"
win-msgbox = "*"

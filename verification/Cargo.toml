[package]
name = "wifi_monitor"
version = "0.1.0"
edition = "2021"
publish = false

[dependencies]
actix-web = "4"
reqwest = { version = "0.12", default-features = false }
log = "0.4"
env_logger = "0.11"
anyhow = "1"

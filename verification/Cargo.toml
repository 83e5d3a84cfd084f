[package]
name = "offline_siem"
version = "0.1.0"
edition = "2021"
publish = false

[dependencies]
serde_json = "1"
serde = { version = "1", features = ["derive"] }
serde_yaml = "0.9"
chrono = "0.4"
uuid = { version = "1", features = ["v4"] }

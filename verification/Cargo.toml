[package]
name = "logs_plugin"
version = "0.1.0"
edition = "2021"
publish = false

[dependencies]
chrono = "0.4"
crossbeam-channel = "0.5"

[dev-dependencies]
serde_json = "1"

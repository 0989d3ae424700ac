[package]
name = "bhg"
version = "0.1.0"
edition = "2021"
publish = false

[dependencies]
chrono = "0.4"
dirs = "*"
serde = "1"
serde_json = "1"

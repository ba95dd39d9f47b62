[package]
name = "mediaqa"
version = "0.1.0"
edition = "2021"
publish = false

[dependencies]
chrono = { version = "0.4", features = ["serde"] }
serde = { version = "1", features = ["derive"] }
serde_json = "1"
toml = "0.8"
walkdir = "2"
notify = "6"
tiny_http = "0.12"
clap = { version = "4", features = ["derive"] }

[package]
name = "realtime_audio"
version = "0.1.0"
edition = "2021"
publish = false

[dependencies]
anyhow = "1"
cpal = "0.15"
rodio = { version = "0.17", default-features = false }
serde = { version = "1", features = ["derive"] }
serde_json = "1"

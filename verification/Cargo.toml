[package]
name = "epicycles"
version = "0.1.0"
edition = "2021"
publish = false

[dependencies]
anyhow = "1"
regex = "1"
rustfft = "6"
serde = { version = "1", features = ["derive"] }
serde_json = "1"

[package]
name = "series_troxide"
version = "0.1.0"
edition = "2021"
publish = false

[dependencies]
anyhow = "=1.0.104"
bytes = "=1.12.1"
iced = { version = "=0.9.0", default-features = false, features = ["glow"] }
tokio = { version = "=1.54.1", features = ["rt", "time"] }

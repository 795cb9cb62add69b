[package]
name = "converter"
version = "0.1.0"
edition = "2021"
publish = false

[dependencies]
eyre = "0.6"
serde = { version = "1", features = ["derive"] }
serde_json = "1"
usvg = "0.35"

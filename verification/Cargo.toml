[package]
name = "devscribe"
version = "0.1.0"
edition = "2021"
publish = false

[dependencies]
serde_json = "1"
iced = { version = "0.14", default-features = false }

[package]
name = "vigilcut"
version = "0.1.0"
edition = "2021"
publish = false

[dependencies]
uuid = { version = "=1.29.1", features = ["v4"] }
serde = { version = "=1.0.229", features = ["derive"] }
serde_json = "=1.0.154"
reqwest = { version = "0.12", default-features = false }
sha2 = "0.10"
hex = "0.4"
base64 = "0.22"
image = { version = "0.25", default-features = false, features = ["png", "jpeg"] }

[package]
name = "novus_voice"
version = "0.1.0"
edition = "2021"
publish = false

[dependencies]
anyhow = "=1.0.104"
base64 = "=0.22.1"
misaki-rs = { version = "=0.3.0", default-features = false }
ort = { version = "=2.0.0-rc.12", default-features = false, features = ["std", "load-dynamic", "api-24"] }
serde = { version = "=1.0.229", features = ["derive"] }
serde_json = "=1.0.154"

[package]
name = "subduction"
version = "0.1.0"
edition = "2021"
publish = false

[dependencies]
rustix = { version = "=1.1.5", features = ["time"] }
kurbo = "=0.13.1"
serde_json = "=1.0.151"

[package]
name = "robocol"
version = "0.1.0"
edition = "2021"
publish = false

[dependencies]
serde = { version = "=1.0.229", features = ["derive"] }
serde_json = "=1.0.154"
jpeg-encoder = "=0.7.1"
rustyline = "*"

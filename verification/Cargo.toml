[package]
name = "asynclm"
version = "0.1.0"
edition = "2021"
publish = false

[dependencies]
inferlet = "=0.3.0"
serde = { version = "=1.0.229", features = ["derive"] }

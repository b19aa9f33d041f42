[package]
name = "analytical"
version = "0.1.0"
edition = "2021"
publish = false

[dependencies]
serde = { version = "=1.0.229", features = ["derive"] }
serde_json = "=1.0.151"
log = "=0.4.34"
pretty_env_logger = "=0.5.0"
color-eyre = "=0.6.5"
reqwest = { version = "=0.13.5", default-features = false, features = ["blocking", "form"] }
tungstenite = "=0.30.0"

[package]
name = "linkrouter"
version = "0.1.0"
edition = "2021"
publish = false

[dependencies]
url = "=2.5.8"
regex = "=1.13.1"
serde = { version = "=1.0.229", features = ["derive"] }
serde_json = "=1.0.154"
thiserror = "=1.0.69"
log = "=0.4.35"
env_logger = "=0.11.11"
winreg = "*"

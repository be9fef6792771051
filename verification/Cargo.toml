[package]
name = "proxy"
version = "1.0.0"
edition = "2021"
publish = false

[dependencies]
base64 = "=0.13.1"
regex = "=1.13.1"
serde = { version = "1", features = ["derive"] }
serde_json = "1"
serde_yaml = "0.8"
clap = "2"
log = "0.4"
log4rs = "1"
rust-shell = "*"

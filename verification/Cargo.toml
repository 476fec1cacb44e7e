[package]
name = "esycpy"
version = "0.1.0"
edition = "2021"
publish = false

[dependencies]
anyhow = "=1.0.104"
clap = "=2.34.0"
log = "=0.4.34"
log-panics = "=2.1.0"
serde = { version = "=1.0.229", features = ["derive"] }
serde_json = "=1.0.154"
simplelog = "=0.9.0"
walkdir = "=2.5.0"

[dev-dependencies]
pathdiff = "0.2"
regex = "1"

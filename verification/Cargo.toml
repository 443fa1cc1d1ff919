[package]
name = "fanctl"
version = "1.0.0"
edition = "2021"
publish = false

[dependencies]
crossterm = "0.28"
libc = "0.2"
nvml-wrapper = "0.10"
ratatui = "0.29"
serde = { version = "1", features = ["derive"] }
serde_json = "1"
serde_yaml = "0.9"

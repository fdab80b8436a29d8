[package]
name = "zenith"
version = "0.1.0"
edition = "2021"
publish = false

[dependencies]
vte = "0.13"
unicode-width = "0.1"
cosmic-text = "0.12"
libc = "0.2"
dirs = "5"
serde = { version = "1", features = ["derive"] }
toml = "0.8"
log = "0.4"
env_logger = "0.11"

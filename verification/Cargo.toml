[package]
name = "wapplatalk"
version = "0.1.0"
edition = "2021"
publish = false

[dependencies]
opus = "=0.2.1"
libpulse-binding = "=2.30.1"
libpulse-simple-binding = "=2.29.0"
tokio = { version = "=1.53.2", features = ["rt-multi-thread", "net"] }
log = "=0.4.34"
env_logger = "=0.11.11"
ratatui = "=0.30.2"

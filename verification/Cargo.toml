[package]
name = "rust_voice"
version = "0.1.0"
edition = "2021"
publish = false

[dependencies]
ringbuf = "=0.3.3"
tokio = { version = "=1.53.2", features = ["net", "rt", "time", "macros"] }
clap = { version = "=4.6.7", features = ["derive"] }
env_logger = "=0.10.2"
log = "=0.4.34"
anyhow = "=1.0.104"
num-traits = "0.2"

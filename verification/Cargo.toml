[package]
name = "rutinose"
version = "0.1.0"
edition = "2021"
publish = false

[dependencies]
dashmap = "5"
crc = "3"
rand = "0.8"
tokio = { version = "1", features = ["full"] }
clap = { version = "4", features = ["derive"] }
anyhow = "1"
bytes = "1"
tracing = "0.1"
tracing-subscriber = "0.3"
once_cell = "1"

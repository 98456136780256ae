[package]
name = "am02_service"
version = "0.1.0"
edition = "2021"
publish = false

[dependencies]
crc32fast = "1"
serde = { version = "1", features = ["derive"] }
serde_json = "1"
serialport = { version = "4", default-features = false }
libc = "0.2"
anyhow = "1"
tracing = "0.1"
tracing-subscriber = "0.3"

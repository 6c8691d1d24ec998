[package]
name = "bmframe"
version = "0.1.0"
edition = "2021"
publish = false

[dependencies]
chrono = "0.4"
csv = "1"
rusqlite = { version = "*", features = ["bundled"] }
serialport = { version = "*", default-features = false }

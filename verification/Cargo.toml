[package]
name = "lod"
version = "0.1.0"
edition = "2021"
publish = false

[dependencies]
chrono = "0.4"
chrono-tz = "0.10"
serde = { version = "1", features = ["derive"] }
serde_json = "1"
memmap2 = "0.9"
zerocopy = { version = "0.7", features = ["derive"] }

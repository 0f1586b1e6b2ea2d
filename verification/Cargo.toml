[package]
name = "openflite"
version = "0.1.0"
edition = "2021"
publish = false

[dependencies]
anyhow = "*"
quick-xml = { version = "*", features = ["serialize"] }
serde = { version = "*", features = ["derive"] }
serde_json = "*"
reqwest = { version = "*", default-features = false, features = ["blocking", "json"] }
serialport = "*"
tokio = { version = "*", features = ["rt-multi-thread", "sync", "time", "macros"] }

[package]
name = "tiber"
version = "0.1.0"
edition = "2021"
publish = false

[dependencies]
eventcore = "*"
eventcore-types = "*"
eventcore-fs = "*"
serde = { version = "1", features = ["derive"] }
serde_json = "1"
sha2 = "0.10"
chrono = "0.4"
toml = "*"
uuid = "1"
tokio = { version = "1", features = ["rt", "rt-multi-thread", "time"] }
tempfile = "3"

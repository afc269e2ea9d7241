[package]
name = "log_parser"
version = "0.1.0"
edition = "2021"
publish = false

[dependencies]
blake3 = "*"
uuid = { version = "*", features = ["v4"] }
regex = "*"
serde = { version = "*", features = ["derive"] }
serde_json = "*"

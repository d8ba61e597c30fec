[package]
name = "releez"
version = "0.1.0"
edition = "2021"
publish = false

[dependencies]
regex = "1"
semver = "0.10"
serde = { version = "1", features = ["derive"] }
serde_json = "1"
serde_yaml = "0.8"
chrono = "0.4"
colored = "2"
clap = "2"
tokio = { version = "0.2", features = ["rt-core", "io-std", "io-util", "fs", "process"] }
crossterm = "0.17"
lazy_static = "1"

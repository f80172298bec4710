[package]
name = "pask"
version = "0.1.0"
edition = "2021"
publish = false

[dependencies]
unicode-width = "*"
clap = { version = "4", features = ["derive"] }
crossterm = "*"
chrono = "0.4"
dirs = "*"

[dev-dependencies]
serde_json = "1"

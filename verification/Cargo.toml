[package]
name = "inspector"
version = "0.1.0"
edition = "2021"
publish = false

[dependencies]
serde_json = "1"
url = "2"
clap = { version = "4", features = ["derive"] }
colored = "2"
terminal-link = "0.1"

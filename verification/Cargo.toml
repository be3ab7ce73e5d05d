[package]
name = "loglens"
version = "0.1.0"
edition = "2021"
publish = false

[dependencies]
chrono = "0.4"
regex = "1"
serde = { version = "1", features = ["derive"] }
serde_json = "1"
serde_yaml = "0.9"
rand = "0.9"
uuid = { version = "1", features = ["v4"] }
clap = { version = "4", features = ["derive"] }
colored = "2"
tabwriter = "1"

[package]
name = "micro_cms"
version = "0.1.0"
edition = "2021"
publish = false

[dependencies]
toml = "*"
serde = { version = "*", features = ["derive"] }
serde_json = "*"
clap = { version = "*", features = ["derive"] }
notify = "*"
walkdir = "*"
rocket = "*"

[package]
name = "residual"
version = "0.1.0"
edition = "2021"
publish = false

[dependencies]
anyhow = "1"
chrono = "0.4"
clap = { version = "4", features = ["derive"] }
comfy-table = "7"
crossterm = "0.27"
csv = "1"
serde = { version = "1", features = ["derive"] }
toml = "0.8"

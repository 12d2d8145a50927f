[package]
name = "cs2d_stats"
version = "0.1.0"
edition = "2021"
publish = false

[dependencies]
clap = "*"
notify = "*"
serde = { version = "*", features = ["derive"] }
serde_json = "*"
csv = "*"
chrono = "*"

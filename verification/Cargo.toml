[package]
name = "procman"
version = "0.1.0"
edition = "2021"
publish = false

[dependencies]
chrono = { version = "=0.4.45", features = ["serde"] }
toml = "=0.8.23"
serde = { version = "=1.0.229", features = ["derive"] }
humantime-serde = "=1.1.1"
clap = { version = "=4.6.7", features = ["derive"] }
fs2 = "=0.4.3"
nix = { version = "=0.29.0", features = ["signal"] }
uuid = { version = "=1.29.0", features = ["v4"] }
ratatui = "=0.29.0"
crossterm = "=0.28.1"

[package]
name = "portkey"
version = "1.0.0"
edition = "2021"
publish = false

[dependencies]
anyhow = "=1.0.104"
chrono = "=0.4.45"
clap = { version = "=4.6.7", features = ["derive"] }
crossterm = "=0.29.0"
dirs = "=7.0.0"
fuzzy-matcher = "=0.3.7"
inquire = "=0.9.4"
ratatui = "=0.30.2"
sodiumoxide = "=0.2.7"
uuid = { version = "=1.27.0", features = ["v4"] }
zeroize = "*"

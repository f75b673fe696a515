[package]
name = "logsplit_rs"
version = "0.1.0"
edition = "2021"
publish = false

[dependencies]
unicode-width = "*"
crossterm = "*"
clap = { version = "*", features = ["derive"] }
portable-pty = "*"
anyhow = "*"

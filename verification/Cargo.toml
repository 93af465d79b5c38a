[package]
name = "ppk2tui"
version = "0.1.0"
edition = "2021"
publish = false

[dependencies]
anyhow = "1"
clap = { version = "4", features = ["derive", "string"] }
crossterm = "0.28"
ratatui = "0.29"
serialport = { version = "4", default-features = false }
time = "0.3"

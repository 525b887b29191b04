[package]
name = "chip8"
version = "0.1.0"
edition = "2021"
publish = false

[dependencies]
rand = "0.8"
async-std = "1"
crossterm = { version = "0.28", features = ["event-stream"] }
futures = "0.3"
futures-timer = "3"
ratatui = "0.29"

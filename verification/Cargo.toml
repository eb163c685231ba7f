[package]
name = "sdrtop"
version = "0.1.0"
edition = "2021"
publish = false

[dependencies]
anyhow = "1"
crossbeam-channel = "0.5"
crossterm = "0.28"
num-complex = "0.4"
ratatui = "0.29"
rustfft = "6"
serialport = { version = "4", default-features = false }
tokio = { version = "1", features = ["rt", "rt-multi-thread", "sync", "time"] }

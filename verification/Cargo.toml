[package]
name = "duomic"
version = "0.1.0"
edition = "2021"
publish = false

[dependencies]
anyhow = "*"
clap = { version = "*", features = ["derive"] }
cpal = "*"
crossbeam-channel = "*"
crossterm = "*"
ctrlc = "*"
dirs = "*"
memmap2 = "*"
ratatui = "*"
serde = { version = "*", features = ["derive"] }
toml = "*"
tracing = "*"
tracing-subscriber = "*"

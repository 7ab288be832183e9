[package]
name = "rscat"
version = "0.1.0"
edition = "2021"
publish = false

[dependencies]
clap = { version = "=4.6.7", features = ["derive"] }
ratatui = "0.30"
tui-big-text = "0.8"

[package]
name = "luvus"
version = "0.1.0"
edition = "2021"
publish = false

[dependencies]
alacritty_terminal = { version = "*", default-features = false }
anyhow = "1"
ratatui = "*"
serde_json = "1"

[package]
name = "json_diff"
version = "0.1.0"
edition = "2021"
publish = false

[dependencies]
anyhow = "1"
crossterm = "0.27"
ratatui = "0.26"
serde_json = "1"
tempfile = "3"

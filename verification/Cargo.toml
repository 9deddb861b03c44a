[package]
name = "hunming"
version = "0.1.0"
edition = "2021"
publish = false

[dependencies]
anyhow = "1"
clap = { version = "4", features = ["derive"] }
clap_complete = "4"
crossterm = "0.28"
directories = "6"
ratatui = "0.29"
serde = { version = "1", features = ["derive"] }
tempfile = "3"
toml = "0.8"

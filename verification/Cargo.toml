[package]
name = "jwtop"
version = "0.1.0"
edition = "2021"
publish = false

[dependencies]
fuzzy-matcher = "*"
ratatui = "*"
crossterm = "*"
sysinfo = "*"
systemstat = "*"
clap = { version = "*", features = ["derive"] }
serde = { version = "*", features = ["derive"] }
toml = "*"
directories = "*"
anyhow = "*"

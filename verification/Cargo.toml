[package]
name = "graca"
version = "0.1.0"
edition = "2021"
publish = false

[dependencies]
clap = { version = "*", features = ["derive"] }
directories = "*"
ratatui = "*"
rust_xlsxwriter = "*"
serde = { version = "*", features = ["derive"] }
toml = "*"

[package]
name = "lasr"
version = "0.1.0"
edition = "2021"
publish = false

[dependencies]
anyhow = "*"
ast-grep-core = "*"
ast-grep-language = "*"
clap = { version = "*", features = ["derive"] }
crossbeam = "*"
crossterm = "*"
etcetera = "*"
ignore = "*"
ratatui = "*"
regex = "*"
serde = { version = "*", features = ["derive"] }
toml = "*"

[package]
name = "hexapoda"
version = "0.1.0"
edition = "2021"
publish = false

[dependencies]
crossterm = "*"
ratatui = "*"
serde = { version = "*", features = ["derive"] }
itertools = "*"
clap = { version = "*", features = ["derive"] }

[package]
name = "qop"
version = "0.1.0"
edition = "2021"
publish = false

[dependencies]
anyhow = "1"
clap = { version = "4", features = ["derive"] }
crossterm = "0.25"
indexmap = { version = "2", features = ["serde"] }
serde = { version = "1", features = ["derive"] }
shellexpand = "3"
toml = "0.8"
tui = "0.19"

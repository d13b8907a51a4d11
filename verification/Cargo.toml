[package]
name = "nippo"
version = "0.1.0"
edition = "2021"
publish = false

[dependencies]
anyhow = "1"
clap = { version = "4", features = ["derive"] }
pulldown-cmark = { version = "0.13", default-features = false, features = ["html"] }
ratatui = "0.29"
serde = { version = "1", features = ["derive"] }
serde_yaml = "0.9"

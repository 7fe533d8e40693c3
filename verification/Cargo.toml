[package]
name = "haydn"
version = "0.1.0"
edition = "2021"
publish = false

[dependencies]
midly = "=0.5.3"
toml = "=0.8.23"
serde = { version = "=1.0.229", features = ["derive"] }
clap = { version = "=4.6.7", features = ["derive"] }
anyhow = "=1.0.104"
midir = "=0.10.4"
crossterm = "=0.28.1"
ratatui = "=0.29.0"
ctrlc = "=3.5.2"

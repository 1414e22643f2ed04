[package]
name = "envswitch"
version = "0.1.0"
edition = "2021"
publish = false

[dependencies]
clap = { version = "*", features = ["derive"] }
color-eyre = "*"
eyre = "*"
indexmap = "*"
serde = "*"
toml = "*"

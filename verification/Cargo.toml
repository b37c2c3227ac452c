[package]
name = "jconf"
version = "0.1.1"
edition = "2021"
publish = false

[dependencies]
glob = "*"
clap = { version = "*", features = ["derive"] }
color-eyre = "*"
serde = { version = "*", features = ["derive"] }
toml = "*"

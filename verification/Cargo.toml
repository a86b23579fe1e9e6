[package]
name = "reginstall"
version = "0.2.0"
edition = "2021"
publish = false

[dependencies]
clap = "*"
serde = { version = "*", features = ["derive"] }
toml = "*"

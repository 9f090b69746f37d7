[package]
name = "tip5_cli"
version = "0.1.0"
edition = "2021"
publish = false

[dependencies]
twenty-first = "*"
clap = { version = "*", features = ["derive"] }

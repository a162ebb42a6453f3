[package]
name = "frospy"
version = "0.1.0"
edition = "2021"
publish = false

[dependencies]
rand = "0.9"
rpds = "*"
clap = { version = "4", features = ["derive"] }

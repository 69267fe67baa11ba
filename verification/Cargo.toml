[package]
name = "skiphead"
version = "0.1.0"
edition = "2021"
publish = false

[dependencies]
file-format = "*"
clap = { version = "*", features = ["derive"] }
termion = "*"

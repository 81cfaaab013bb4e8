[package]
name = "mimas"
version = "0.1.0"
edition = "2021"
publish = false

[dependencies]
colored = "*"
walkdir = "2"
clap = { version = "3", features = ["derive"] }

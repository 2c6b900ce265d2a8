[package]
name = "sublink"
version = "0.1.0"
edition = "2021"

[dependencies]
humansize = "*"
clap = { version = "*", features = ["derive"] }
colored = "*"
inquire = "*"

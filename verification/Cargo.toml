[package]
name = "gh_summary"
version = "0.1.0"
edition = "2021"
publish = false

[dependencies]
jiff = "*"
clap = { version = "*", features = ["derive"] }
colored = "*"

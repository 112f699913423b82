[package]
name = "dfq"
version = "0.1.0"
edition = "2021"
publish = false

[dependencies]
dockerfile-parser = "*"
clap = { version = "*", features = ["derive"] }
clap_complete = "*"

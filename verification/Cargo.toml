[package]
name = "plotpath"
version = "0.1.0"
edition = "2021"
publish = false

[dependencies]
roxmltree = "*"
clap = { version = "4", features = ["derive"] }
inquire = "*"
serialport = { version = "*", default-features = false }

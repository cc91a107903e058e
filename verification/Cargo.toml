[package]
name = "kicktipp"
version = "0.1.0"
edition = "2021"
publish = false

[dependencies]
json = "*"
clap = { version = "*", features = ["derive"] }
reqwest = { version = "*", default-features = false, features = ["blocking"] }

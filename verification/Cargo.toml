[package]
name = "viscon"
version = "0.1.0"
edition = "2021"
publish = false

[dependencies]
logos = { version = "0.12", default-features = false, features = ["std"] }
regex-syntax = "0.6"

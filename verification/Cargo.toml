[package]
name = "casino"
version = "0.1.0"
edition = "2021"
publish = false

[dependencies]
cards = "*"
poker = "*"
uuid = { version = "*", features = ["v4"] }

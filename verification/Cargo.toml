[package]
name = "ping"
version = "0.1.0"
edition = "2021"
publish = false

[dependencies]
rand = "*"
socket2 = { version = "*", features = ["all"] }

[package]
name = "grab"
version = "0.1.0"
edition = "2021"
publish = false

[dependencies]
fuzzy-matcher = "*"
memchr = "*"
uuid = { version = "*", features = ["v4"] }
zellij-tile = "*"

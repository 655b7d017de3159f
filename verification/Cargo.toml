[package]
name = "superchess"
version = "0.1.0"
edition = "2021"
publish = false

[dependencies]
cozy-chess = "0.3"
arrayvec = "0.7"

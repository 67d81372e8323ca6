[package]
name = "sapphillon"
version = "0.1.0"
edition = "2021"
publish = false

[dependencies]
unescaper = "*"
serde_json = "*"
walkdir = "*"

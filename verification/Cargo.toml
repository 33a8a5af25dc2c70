[package]
name = "cassette"
version = "0.1.0"
edition = "2021"
publish = false

[dependencies]
bitvec = "*"
anyhow = "*"
hound = "*"
cpal = "*"

[dependencies.clap]
version = "*"
features = ["derive"]

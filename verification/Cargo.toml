[package]
name = "aeternitas"
version = "0.1.0"
edition = "2021"
publish = false

[dependencies]
noise = "*"
bevy = { version = "*", default-features = false }

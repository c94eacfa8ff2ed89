[package]
name = "asciiquarium"
version = "0.1.0"
edition = "2021"
publish = false

[dependencies]
crossterm = "0.28"
image = { version = "0.25", default-features = false, features = ["png", "jpeg", "gif", "bmp"] }
rand = "0.8"

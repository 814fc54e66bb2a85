[package]
name = "rustanium"
version = "0.1.0"
edition = "2021"
publish = false

[dependencies]
x86_64 = { version = "*", default-features = false, features = ["instructions"] }

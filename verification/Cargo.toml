[package]
name = "shortener"
version = "0.1.0"
edition = "2021"
publish = false

[dependencies]
rand = "0.8"
rust-argon2 = "*"
serde = { version = "1", features = ["derive"] }
serde_json = "1"

[package]
name = "aca"
version = "0.1.0"
edition = "2021"
publish = false

[dependencies]
associative-cache = "*"
hashbrown = "0.12"
strum = { version = "0.24", features = ["derive"] }

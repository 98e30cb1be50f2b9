[package]
name = "coworking_core"
version = "0.1.0"
edition = "2021"
publish = false

[dependencies]
jsonwebtoken = "9"
rust-argon2 = "2"
rand = "0.8"

[dev-dependencies]
serde_json = "1"

[package]
name = "treetap"
version = "0.1.0"
edition = "2021"
publish = false

[dependencies]
rust-argon2 = "*"
base64 = "0.13"
serde_json = "1"

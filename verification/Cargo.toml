[package]
name = "boon"
version = "0.1.0"
edition = "2021"
publish = false

[dependencies]
ariadne = "0.5"
serde = { version = "1", features = ["derive"] }
serde_json = "1"
serde_json_any_key = "2"
ulid = "1"

[package]
name = "furigana"
version = "0.1.0"
edition = "2021"
publish = false

[dependencies]
lindera = "*"
serde = { version = "*", features = ["derive"] }
serde_json = "*"

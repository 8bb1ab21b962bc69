[package]
name = "font_catalog"
version = "0.1.0"
edition = "2021"
publish = false

[dependencies]
font-kit = "*"
serde = { version = "*", features = ["derive"] }
serde_json = "*"
chrono = "*"

[package]
name = "nur_blog"
version = "0.1.0"
edition = "2021"
publish = false

[dependencies]
maud = "*"
percent-encoding = "*"
rust-i18n = "*"
serde = { version = "1", features = ["derive"] }
serde_json = "1"

[package]
name = "iplan"
version = "0.1.0"
edition = "2021"
publish = false

[dependencies]
rusqlite = "0.29"
gettext-rs = { version = "0.7", features = ["gettext-system"] }

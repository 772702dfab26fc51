[package]
name = "jev-scout"
version = "0.2.1"
edition = "2021"
publish = false

[dependencies]
lexopt = "0.3"
serde = { version = "1", features = ["derive"] }
serde_json = "1"
ureq = { version = "2", features = ["json"] }

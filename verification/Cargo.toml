[package]
name = "yomisama"
version = "0.1.0"
edition = "2021"
publish = false

[dependencies]
cdb = "*"
serde = { version = "*", features = ["derive"] }
serde_json = "*"
dirs = "*"

[dev-dependencies]
tempfile = "*"

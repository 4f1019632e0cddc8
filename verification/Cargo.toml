[package]
name = "ephemeral_files"
version = "0.1.0"
edition = "2021"
publish = false

[dependencies]
rand = "0.8"
sanitize-filename = "*"
chrono = "0.4"
serde = { version = "1", features = ["derive"] }
serde_json = "1"
toml = "*"

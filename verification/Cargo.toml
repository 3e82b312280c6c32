[package]
name = "gmail_to_rag"
version = "0.1.0"
edition = "2021"
publish = false

[dependencies]
mailparse = "*"
serde = { version = "1", features = ["derive"] }
toml = "*"

[package]
name = "doc_manager"
version = "0.1.0"
edition = "2021"
publish = false

[dependencies]
image = "*"
libcaesium = "*"
rusqlite = { version = "*", features = ["bundled"] }
serde = { version = "*", features = ["derive"] }
toml = "*"

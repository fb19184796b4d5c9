[package]
name = "ffs"
version = "0.1.0"
edition = "2021"
publish = false

[dependencies]
ignore = "*"
rusqlite = { version = "*", features = ["bundled"] }
serde = { version = "1", features = ["derive"] }
serde_json = "1"

[package]
name = "ygo_destiny"
version = "0.1.0"
edition = "2021"
publish = false

[dependencies]
serde_json = "1"
reqwest = { version = "*", features = ["blocking"] }
rusqlite = { version = "*", features = ["bundled"] }
directories = "*"
once_cell = "1"

[package]
name = "vitasport"
version = "0.1.0"
edition = "2021"
publish = false

[dependencies]
bcrypt = "0.15"
rusqlite = { version = "0.31", features = ["bundled"] }
serde = { version = "1", features = ["derive"] }
serde_json = "1"
reqwest = { version = "0.11", default-features = false, features = ["blocking"] }

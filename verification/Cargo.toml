[package]
name = "schedula"
version = "0.1.0"
edition = "2021"
publish = false

[dependencies]
serde = { version = "1", features = ["derive"] }
serde_json = "1"
hmac = "0.12"
sha2 = "0.10"
hex = "0.4"
rand = "0.8"
bcrypt = "0.15"
chrono = "0.4"
jsonwebtoken = "9"
base64 = "0.22"
uuid = { version = "1", features = ["v4"] }
rusqlite = { version = "0.31", features = ["bundled"] }

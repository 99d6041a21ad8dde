[package]
name = "cachecore"
version = "0.1.0"
edition = "2021"
publish = false

[dependencies]
r2d2 = "*"
redis = { version = "*", features = ["r2d2"] }
serde = { version = "*", features = ["derive"] }
serde_json = "*"
uuid = { version = "*", features = ["v4"] }

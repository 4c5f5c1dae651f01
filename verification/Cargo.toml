[package]
name = "rive2d"
version = "0.1.0"
edition = "2021"
publish = false

[dependencies]
md5 = "0.7"
zip = { version = "2", default-features = false, features = ["deflate"] }
serde = { version = "1", features = ["derive"] }
serde_json = "1"
percent-encoding = "2"
chrono = "0.4"
rusqlite = { version = "*", features = ["bundled"] }

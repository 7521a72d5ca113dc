[package]
name = "readymade"
version = "0.1.0"
edition = "2021"
publish = false

[dependencies]
serde = { version = "1", features = ["derive"] }
serde_json = "1"
bytesize = { version = "*", features = ["serde"] }
uuid = { version = "1", features = ["serde"] }
chrono-tz = "*"
lsblk = "*"
serde_valid = { version = "*", features = ["toml"] }

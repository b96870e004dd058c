[package]
name = "skyspark_client"
version = "0.1.0"
edition = "2021"
publish = false

[dependencies]
url = "*"
sha2 = "*"
hmac = "*"
pbkdf2 = "*"
base64 = "*"
rand = "*"
chrono = "*"
chrono-tz = "*"
tokio = { version = "*", features = ["rt-multi-thread"] }
reqwest = "*"

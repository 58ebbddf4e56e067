[package]
name = "hollow_sync"
version = "0.1.0"
edition = "2021"
publish = false

[dependencies]
aes = "0.8"
base64 = "0.22"
zip = { version = "0.6", default-features = false }
dirs = "5"
chrono = "0.4"
serde_json = "1"

[package]
name = "supercv"
version = "0.1.0"
edition = "2021"
publish = false

[dependencies]
twox-hash = "1.6"
chrono = "0.4"
clipboard-rs = "0.2"
serde = { version = "1", features = ["derive"] }
toml = "0.8"
dirs = "5"
url = "2"
urlencoding = "2"

[package]
name = "organize"
version = "0.1.0"
edition = "2021"
publish = false

[dependencies]
regex = "=1.13.1"
mime = "=0.3.17"
mime_guess = "=2.0.5"
tera = { version = "=1.20.1", default-features = false }
rand = "=0.9.5"
serde = { version = "=1.0.229", features = ["derive"] }
serde_json = "=1.0.154"
uuid = { version = "=1.29.0", features = ["v4"] }
chrono = "=0.4.45"
dirs = "=7.0.0"
walkdir = "=2.5.0"
path-clean = "1"

[dev-dependencies]
tempfile = "=3.27.0"

[package]
name = "rawssg"
version = "0.1.0"
edition = "2021"
publish = false

[dependencies]
chrono = "0.4"
pulldown-cmark = { version = "0.13", default-features = false, features = ["html"] }
serde = { version = "1", features = ["derive"] }
serde_json = "1"
serde_yaml = "0.9"
tera = "1"
thiserror = "2"
miette = "7"
walkdir = "2"
tracing = "0.1"
tracing-subscriber = "0.3"
tiny_http = "0.12"
notify = "8"

[dev-dependencies]
tempfile = "3"

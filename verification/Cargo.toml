[package]
name = "mensa"
version = "0.1.0"
edition = "2021"
publish = false

[dependencies]
chrono = "0.4"
html-escape = "0.2"
jni = "0.21"
libc = "0.2"
scraper = "*"
serde = { version = "1", features = ["derive"] }
serde_json = "1"
thiserror = "1"
toml = "*"
ureq = { version = "2", features = ["json"] }

[dev-dependencies]
regex = "1"

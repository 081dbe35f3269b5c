[package]
name = "skilldo"
version = "0.1.0"
edition = "2021"
publish = false

[dependencies]
anyhow = "1"
base64 = "0.22"
clap = { version = "4", features = ["derive"] }
dirs = "5"
git2 = { version = "0.19", default-features = false }
hex = "0.4"
log = "0.4"
reqwest = { version = "0.12", default-features = false, features = ["blocking", "json", "rustls-tls"] }
serde = { version = "1", features = ["derive"] }
serde_json = "1"
sha2 = "0.10"
urlencoding = "2"
uuid = { version = "1", features = ["v4"] }
walkdir = "2"

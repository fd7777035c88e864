[package]
name = "megadown"
version = "0.1.0"
edition = "2021"
publish = false

[dependencies]
aes = "0.8"
base64 = "0.22"
ctr = "0.9"
reqwest = { version = "0.12", default-features = false, features = ["json", "rustls-tls"] }
rfd = { version = "0.15", default-features = false, features = ["xdg-portal", "tokio"] }
sanitize-filename = "0.6"
serde = { version = "1", features = ["derive"] }
serde_json = "1"
sha2 = "0.10"
slint = { version = "~1.13", default-features = false, features = ["std", "compat-1-2"] }
thiserror = "2"
tokio = { version = "1", features = ["rt-multi-thread", "macros", "sync", "time", "fs", "io-util"] }
url = "2"
uuid = { version = "1", features = ["v4"] }

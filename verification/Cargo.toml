[package]
name = "mag"
version = "0.1.0"
edition = "2021"
publish = false

[dependencies]
clap = "*"
env_logger = "*"
human-panic = "*"
indicatif = "0.18"
indicatif-log-bridge = "*"
log = "*"
rayon = "*"
reqwest = { version = "0.12", default-features = false, features = ["blocking", "rustls-tls"] }
serde = { version = "*", features = ["derive"] }
serde_json = "*"
temp-dir = "*"
temp-file = "*"
thiserror = "*"
walkdir = "*"
zip = { version = "*", default-features = false, features = ["deflate"] }

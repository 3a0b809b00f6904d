[package]
name = "jinji"
version = "0.1.0"
edition = "2021"
publish = false

[dependencies]
anyhow = "1"
base64 = "0.22"
clap = { version = "4", features = ["derive"] }
regex = "1"
reqwest = { version = "0.11", default-features = false, features = ["blocking"] }
serde_json = "1"
serde_yaml = "0.9"
tera = { version = "1", default-features = false }

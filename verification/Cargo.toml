[package]
name = "grease"
version = "0.1.0"
edition = "2021"
publish = false

[dependencies]
base64 = "*"
cgi = "*"
chrono = "*"
glob = "*"
http = "*"
regex = "*"
serde = { version = "*", features = ["derive"] }
serde_json = "*"
url = "*"

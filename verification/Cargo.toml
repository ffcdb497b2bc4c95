[package]
name = "attendance"
version = "0.1.0"
edition = "2021"
publish = false

[dependencies]
base64 = "*"
chrono = "*"
clap = { version = "*", features = ["derive"] }
config = "*"
csv = "*"
dotenvy = "*"
native-tls = "*"
serde = { version = "*", features = ["derive"] }
serde_json = "*"
tabled = "*"

[package]
name = "zicsv"
version = "0.1.0"
edition = "2021"
publish = false

[dependencies]
encoding = "0.2"
url = "2"
idna = "*"
serde = { version = "1", features = ["derive"] }
serde_json = "1"
trust-dns-resolver = "0.23"

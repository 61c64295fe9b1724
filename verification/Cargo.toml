[package]
name = "crawler"
version = "0.1.0"
edition = "2021"
publish = false

[dependencies]
url = "*"
reqwest = { version = "0.11", default-features = false, features = ["blocking", "rustls-tls"] }
log = "*"
simple_logger = "*"
chan-signal = "*"

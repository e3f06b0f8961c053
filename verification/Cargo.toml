[package]
name = "pngme"
version = "0.1.0"
edition = "2021"
publish = false

[dependencies]
crc = "1"
magic-crypt = "3"
structopt = "0.3"
image = "0.24"
reqwest = { version = "0.11", default-features = false, features = ["blocking", "rustls-tls"] }

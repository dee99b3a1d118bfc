[package]
name = "kerlab"
version = "0.1.0"
edition = "2021"
publish = false

[dependencies]
md4 = "*"
md-5 = "*"
hmac = "*"
rand = "*"
chrono = "*"
clap = "*"
hex = "*"
base64 = "*"

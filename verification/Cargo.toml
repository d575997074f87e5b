[package]
name = "xorbreak"
version = "0.1.0"
edition = "2021"
publish = false

[dependencies]
hex = "0.4"
base64 = "0.13"
openssl = "0.10"

[package]
name = "ct_verify"
version = "0.1.0"
edition = "2021"
publish = false

[dependencies]
base64 = "*"
ring = "*"
serde_json = "*"
x509-parser = "*"

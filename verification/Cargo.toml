[package]
name = "interledger"
version = "0.1.0"
edition = "2021"
publish = false

[dependencies]
base64 = "0.13"
ring = "0.16"
serde = "1"
url = "2"

[package]
name = "zed-sandbox"
version = "0.1.0"
edition = "2021"
publish = false

[dependencies]
anyhow = "1"
md5 = "*"
serde_json = "1"

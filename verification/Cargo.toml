[package]
name = "webdav_core"
version = "0.1.0"
edition = "2021"
publish = false

[dependencies]
quick-xml = "0.31"
base64 = "0.21"
worker = "*"

[package]
name = "face_redact"
version = "0.1.0"
edition = "2021"
publish = false

[dependencies]
opencv = "*"

[package]
name = "hls_m3u8"
version = "0.1.0"
edition = "2021"
publish = false

[dependencies]
trackable = "0.2"

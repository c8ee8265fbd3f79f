[package]
name = "nntp"
version = "0.1.0"
edition = "2021"
publish = false

[dependencies]
bufstream = "0.1"
flate2 = "1"
native-tls = "0.2"

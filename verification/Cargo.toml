[package]
name = "encoding_detector"
version = "0.1.0"
edition = "2021"
publish = false

[dependencies]
encoding_rs = "0.8"
memchr = "2"

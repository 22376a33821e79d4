[package]
name = "webvtt_to_md"
version = "0.1.0"
edition = "2021"
publish = false

[dependencies]
chardetng = "=1.0.0"
encoding_rs = "=0.8.44"
html-escape = "=0.2.15"
clap = { version = "=4.6.7", features = ["derive"] }

[dev-dependencies]
regex = "=1.13.1"

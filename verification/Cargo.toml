[package]
name = "rustvent2023"
version = "0.1.0"
edition = "2021"
publish = false

[dependencies]
regex = "1"
curl = "0.4"

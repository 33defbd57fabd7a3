[package]
name = "openprot"
version = "0.1.0"
edition = "2021"
publish = false

[dependencies]
mctp = "0.2"
heapless = "0.9"
embedded-io = "0.6"
embedded-hal = "1.0"

[package]
name = "micronaut"
version = "0.1.0"
edition = "2021"
publish = false

[dependencies]
unicode-width = "*"
ratatui = { version = "*", default-features = false }

[package]
name = "watchtower"
version = "0.1.0"
edition = "2021"
publish = false

[dependencies]
bitcoin = "0.32"
lightning = "0.2"

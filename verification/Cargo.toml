[package]
name = "kagen"
version = "0.1.0"
edition = "2021"
publish = false

[dependencies]
zenmai = "*"

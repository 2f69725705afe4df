[package]
name = "monkey_yaml"
version = "0.1.0"
edition = "2021"
publish = false

[dependencies]
log = "0.4"
yaml-rust = "0.4"

[package]
name = "lucent"
version = "0.1.0"
edition = "2021"
publish = false

[dependencies]
goblin = "0.4"
scroll = "0.10"

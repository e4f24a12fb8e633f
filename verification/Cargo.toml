[package]
name = "rsass"
version = "0.1.0"
edition = "2021"
publish = false

[dependencies]
nom = "2.2"
num-rational = "*"
num-traits = "*"
deunicode = "*"
yaml-rust = "*"

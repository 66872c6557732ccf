[package]
name = "citygen"
version = "0.1.0"
edition = "2021"
publish = false

[dependencies]
rand = "0.8"
rand_distr = "0.4"
uuid = { version = "1", features = ["v4"] }
regex = "1"
html-builder = "*"
strum = "0.24"
strum_macros = "0.24"

[package]
name = "embedded_graphics"
version = "0.1.0"
edition = "2021"
publish = false

[dependencies]
integer-sqrt = "0.1"
nom = { version = "5.1", default-features = false }

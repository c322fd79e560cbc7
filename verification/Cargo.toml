[package]
name = "crisp"
version = "0.1.0"
edition = "2021"
publish = false

[dependencies]
nom = "=7.1.3"
nom-supreme = "0.8"
rustyline = "=9.1.2"

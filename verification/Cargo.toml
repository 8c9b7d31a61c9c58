[package]
name = "trivial_i18n"
version = "0.1.0"
edition = "2021"
publish = false

[dependencies]
jprop = "*"

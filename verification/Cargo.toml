[package]
name = "krnl_macros"
version = "0.1.0"
edition = "2021"
publish = false

[dependencies]
semver = "*"
flate2 = "*"
zero85 = "*"
hex = "*"

[package]
name = "dcbor_parse"
version = "0.1.0"
edition = "2021"
publish = false

[dependencies]
base64 = "*"
bc-ur = "*"
dcbor = "*"
hex = "*"
known-values = "*"
thiserror = "*"

[package]
name = "shipc"
version = "0.1.0"
edition = "2021"
publish = false

[dependencies]
base32 = "*"
rand = "*"
clap = "*"
tempdir = "*"

[dev-dependencies]
serde_json = "*"

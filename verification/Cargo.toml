[package]
name = "jsl_infer"
version = "0.1.0"
edition = "2021"
publish = false

[dependencies]
chrono = "*"
clap = "2"
jsl = "*"
json-pointer = "*"
serde_json = "1"

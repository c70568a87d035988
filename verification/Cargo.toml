[package]
name = "zrt"
version = "0.1.0"
edition = "2021"
publish = false

[dependencies]
glob = "*"
serde_yaml_ng = "*"
walkdir = "*"

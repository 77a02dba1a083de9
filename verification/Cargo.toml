[package]
name = "gimura_preprocessor_lib"
version = "0.1.0"
edition = "2021"
publish = false

[dependencies]
glob = "*"
log = "*"

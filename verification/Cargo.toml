[package]
name = "ps_sig"
version = "0.1.0"
edition = "2021"
publish = false

[dependencies]
amcl_wrapper = "*"
serde = "*"
serde_derive = "*"

[package]
name = "shenzhen_solitaire"
version = "0.1.0"
edition = "2021"
publish = false

[dependencies]
num-ordinal = "*"
rand = "0.8"
serde_json = "1"

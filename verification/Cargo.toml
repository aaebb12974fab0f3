[package]
name = "nio_crypto"
version = "0.1.0"
edition = "2021"
publish = false

[dependencies]
ruma-identifiers-validation = "*"
serde_json = "1"

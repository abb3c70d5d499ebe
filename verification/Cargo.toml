[package]
name = "rem"
version = "0.1.0"
edition = "2021"
publish = false

[dependencies]
bytes = "1"
serde = "1"
serde_derive = "1"
toml = "0.8"
native-tls = "0.2"

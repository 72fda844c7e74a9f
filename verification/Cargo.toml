[package]
name = "sled_storage"
version = "0.1.0"
edition = "2021"
publish = false

[dependencies]
sled = "*"
serde = "*"
serde_json = "*"
openmls_traits = "*"

[dev-dependencies]
tempfile = "*"

[package]
name = "credential_mapper"
version = "0.1.0"
edition = "2021"
publish = false

[dependencies]
serde = { version = "=1.0.229", features = ["derive"] }
serde_json = "=1.0.151"
serde_path_to_error = "=0.1.20"
regex = "=1.13.1"
jsonschema = { version = "=0.58.6", default-features = false }

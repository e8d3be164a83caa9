[package]
name = "openapi_flat"
version = "0.1.0"
edition = "2021"
publish = false

[dependencies]
serde = { version = "=1.0.229", features = ["derive"] }
serde_json = "=1.0.151"
serde_yaml = "=0.9.34"
schemafy = "=0.6.0"
schemafy_lib = "=0.6.0"

[package]
name = "evorule_bundle"
version = "0.3.0"
edition = "2021"
publish = false

[dependencies]
evorule-hash = "*"
jsonschema = { version = "0.28", default-features = false }
serde = { version = "1", features = ["derive"] }
serde_json = "1"
thiserror = "*"

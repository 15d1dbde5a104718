[package]
name = "json0"
version = "0.1.0"
edition = "2021"
publish = false

[dependencies]
serde_json = "1"
thiserror = "1"
dashmap = "5"

[dev-dependencies]
serde_json = "1"

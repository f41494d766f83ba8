[package]
name = "dsv4_prompt"
version = "0.1.0"
edition = "2021"
publish = false

[dependencies]
serde_json = { version = "1", features = ["preserve_order"] }
tracing = "0.1"

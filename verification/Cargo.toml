[package]
name = "confwatch"
version = "0.1.0"
edition = "2021"
publish = false

[dependencies]
serde_json = "*"
toml_edit = "*"

[package]
name = "stylex_path_resolver"
version = "0.1.0"
edition = "2021"
publish = false

[dependencies]
path-clean = "*"
pathdiff = "*"
serde_json = "*"

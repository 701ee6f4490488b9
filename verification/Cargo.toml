[package]
name = "nemoscene"
version = "0.1.0"
edition = "2021"
publish = false

[dependencies]
url-escape = "*"
serde = { version = "*", features = ["derive"] }
serde_json = "*"
toml = "*"
walkdir = "*"
anyhow = "*"
log = "*"
env_logger = "*"
once_cell = "*"
html-to-string-macro = "*"

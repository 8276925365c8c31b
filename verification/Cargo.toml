[package]
name = "ollama_file_find"
version = "0.1.0"
edition = "2021"
publish = false

[dependencies]
anyhow = "*"
clap = { version = "*", features = ["derive"] }
dirs = "*"
serde = { version = "*", features = ["derive"] }
serde_json = "*"
thiserror = "*"
walkdir = "*"

[package]
name = "serena-mcp"
version = "0.1.0"
edition = "2021"
publish = false

[dependencies]
anyhow = "1"
clap = { version = "4", features = ["derive"] }
log = "0.4"
once_cell = "1"
regex = "1"
serde = { version = "1", features = ["derive"] }
serde_json = "1"
simplelog = "0.12"
time = { version = "0.3", features = ["formatting"] }
walkdir = "2"

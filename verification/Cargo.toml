[package]
name = "forge_e2e"
version = "0.1.0"
edition = "2021"
publish = false

[dependencies]
anyhow = "1"
calamine = "*"
chrono = "0.4"
clap = { version = "4", features = ["derive"] }
colored = "*"
crossterm = "*"
ratatui = "*"
rayon = "1"
rust_xlsxwriter = "*"
serde = { version = "1", features = ["derive"] }
serde_json = "1"
serde_yaml_ng = "*"
tempfile = "3"

[package]
name = "diff_by_time"
version = "0.1.7"
edition = "2021"
publish = false

[dependencies]
anyhow = "1"
chrono = { version = "0.4", features = ["serde"] }
clap = { version = "4", features = ["derive"] }
colored = "2"
crossterm = "0.27"
dirs = "5"
fuzzy-matcher = "0.3"
hex = "0.4"
pathdiff = "0.2"
ratatui = "0.26"
regex = "1"
serde = { version = "1", features = ["derive"] }
serde_json = "1"
sha2 = "0.10"
similar = "2"
toml = "0.8"
tree-sitter = "0.22"
tree-sitter-bash = "0.21"
unicode-width = "0.1"

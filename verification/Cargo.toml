[package]
name = "dc"
version = "0.1.0"
edition = "2021"
publish = false

[dependencies]
tree-sitter = "*"
tree-sitter-python = "*"
petgraph = "*"
clap = { version = "*", features = ["derive"] }
ignore = "*"
mimalloc = "*"
rayon = "*"
serde = { version = "*", features = ["derive"] }
serde_json = "*"
toml = "*"

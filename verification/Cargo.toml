[package]
name = "astchunk"
version = "0.1.0"
edition = "2021"
publish = false

[dependencies]
tree-sitter = "*"
tree-sitter-python = "*"
tree-sitter-java = "*"
tree-sitter-cpp = "*"
tree-sitter-rust = "*"
tree-sitter-c-sharp = "*"
tree-sitter-typescript = "*"
bytestring = { version = "*", features = ["serde"] }
serde = { version = "1", features = ["derive"] }
serde_json = "1"
clap = { version = "4", features = ["derive"] }
camino = "1"
comfy-table = "7"
ignore = "0.4"
rayon = "1"
mimalloc = "*"
tracing-subscriber = { version = "0.3", features = ["env-filter", "chrono"] }

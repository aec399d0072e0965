[package]
name = "ersa_lsp_core"
version = "0.3.1"
edition = "2021"
publish = false

[dependencies]
serde = { version = "1", features = ["derive"] }
serde_json = "1"
tower-lsp = "0.20"
tokio = { version = "1", features = ["macros", "rt-multi-thread", "io-std", "fs", "time", "sync"] }
tree-sitter = "0.24"
clap = { version = "4", features = ["derive"] }
once_cell = "1"

[package]
name = "aft"
version = "0.1.0"
edition = "2021"
publish = false

[dependencies]
ast-grep-core = "=0.51.1"
crossbeam-channel = "=0.5.17"
getrandom = "=0.4.3"
glob = "=0.3.4"
ignore = "=0.4.34"
libc = "=0.2.191"
log = "=0.4.35"
lsp-types = "=0.97.0"
notify = "=8.2.1"
rayon = "=1.12.0"
regex = "=1.13.1"
serde = { version = "=1.0.229", features = ["derive"] }
serde_json = "=1.0.154"
tree-sitter = "=0.27.1"
tree-sitter-bash = "=0.25.1"
tree-sitter-c = "*"
tree-sitter-c-sharp = "*"
tree-sitter-cpp = "*"
tree-sitter-go = "=0.25.0"
tree-sitter-javascript = "=0.25.0"
tree-sitter-python = "=0.25.0"
tree-sitter-rust = "=0.24.2"
tree-sitter-typescript = "=0.23.2"
tree-sitter-zig = "*"

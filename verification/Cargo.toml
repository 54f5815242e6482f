[package]
name = "piolsp"
version = "0.1.0"
edition = "2021"
publish = false

[dependencies]
tree-sitter = "0.25"
tree-sitter-pio = "*"
memchr = "2"
regex = "1"
log = "0.4"
simple-logging = "2"
lsp-server = "*"
gen-lsp-types = "*"
serde = "1"
serde_json = "1"
foldhash = "*"
yoke = { version = "*", features = ["derive"] }

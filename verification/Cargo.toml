[package]
name = "oxiclean"
version = "0.1.0"
edition = "2021"
rust-version = "1.95"
publish = false

[dependencies]
anyhow = "*"
clap = { version = "*", features = ["derive"] }
colored = "*"
dashmap = "=6.2.1"
env_logger = "*"
ignore = "*"
log = "*"
oxc_allocator = "=0.145.0"
oxc_ast = "=0.145.0"
oxc_parser = "=0.145.0"
oxc_span = "=0.145.0"
path-clean = "=1.0.1"
rayon = "*"
serde_json = "*"

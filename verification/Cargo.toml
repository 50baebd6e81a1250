[package]
name = "inlining"
version = "0.1.0"
edition = "2021"
publish = false

[dependencies]
anyhow = "=1.0.104"
base64 = "=0.13.1"
log = "=0.4.34"
serde = { version = "=1.0.229", features = ["derive"] }
serde_json = "=1.0.154"
sourcemap = "=9.3.2"
swc_atoms = "=10.0.0"
swc_common = { version = "=26.0.0", features = ["sourcemap"] }
swc_ecma_ast = "=29.0.2"
swc_ecma_codegen = "=32.0.5"
swc_ecma_parser = "=46.1.2"
swc_ecma_utils = "=35.1.0"
swc_ecma_visit = "=29.0.0"
swc_sourcemap = "*"

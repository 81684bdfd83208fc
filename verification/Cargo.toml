[package]
name = "pyrefly_django"
version = "0.1.0"
edition = "2021"
publish = false

[dependencies]
starlark_map = "*"
serde = { version = "1", features = ["derive"] }
unicode-ident = "1"

[dev-dependencies]
anyhow = "1"

[package]
name = "wisdom"
version = "0.1.0"
edition = "2021"
publish = false

[dependencies]
indent = "=0.1.1"
itertools = "=0.14.0"
serde = { version = "=1.0.229", features = ["derive"] }
serde-saphyr = "*"
serde-inline-default = "*"
dircpy = "=0.3.21"
regex-lite = "=0.1.9"
indoc = "=2.0.8"

[package]
name = "nightbug"
version = "0.1.0"
edition = "2021"
publish = false

[dependencies]
annotate-snippets = { version = "0.9", features = ["color"] }
thiserror = "1"

[package]
name = "recent_paths"
version = "0.1.0"
edition = "2021"
publish = false

[dependencies]
indexmap = "*"
fs2 = "*"

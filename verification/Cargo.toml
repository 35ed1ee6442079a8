[package]
name = "proj2tree"
version = "0.1.0"
edition = "2021"
publish = false

[dependencies]
ignore = "*"
clap = "*"
serde = { version = "*", features = ["derive"] }
toml = "*"

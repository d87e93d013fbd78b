[package]
name = "knoll"
version = "0.1.0"
edition = "2021"
publish = false

[dependencies]
serde = { version = "*", features = ["derive"] }
serde_json = "*"
ron = "*"
serde_repr = "*"
serde_tuple = "*"
clap = "*"
humantime = "*"

[package]
name = "param_analyzer"
version = "0.1.0"
edition = "2021"
publish = false

[dependencies]
calamine = "*"
clap = "*"
serde = { version = "*", features = ["derive"] }
serde_json = "*"

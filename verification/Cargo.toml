[package]
name = "graph6_convert"
version = "0.1.0"
edition = "2021"
publish = false

[dependencies]
graph6-rs = "*"
anyhow = "1"
clap = { version = "4", features = ["derive"] }

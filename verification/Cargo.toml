[package]
name = "luc"
version = "0.1.0"
edition = "2021"
publish = false

[dependencies]
markdown = "*"
minijinja = "2"
serde = { version = "1", features = ["derive"] }
serde_json = "1"
serde_yaml = "0.9"
clap = { version = "4", features = ["derive"] }
tokio = { version = "1", features = ["rt-multi-thread", "macros"] }
thiserror = "1"

[package]
name = "codexctl"
version = "0.1.0"
edition = "2021"
publish = false

[dependencies]
anyhow = "1"
colored = "2"
serde = { version = "1", features = ["derive"] }
serde_json = "1"
serde_yaml = "0.9"
tokio = { version = "1", features = ["fs", "macros", "rt-multi-thread"] }

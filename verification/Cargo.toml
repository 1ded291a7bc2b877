[package]
name = "todo"
version = "0.1.0"
edition = "2021"
publish = false

[dependencies]
comfy-table = "7"
anyhow = "1"
tokio = { version = "1", features = ["rt-multi-thread", "macros"] }
sqlx = { version = "0.8", features = ["sqlite", "runtime-tokio"] }

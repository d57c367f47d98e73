[package]
name = "task_assistant"
version = "0.1.0"
edition = "2021"
publish = false

[dependencies]
uuid = { version = "1", features = ["v4"] }
rusqlite = { version = "*", features = ["bundled"] }

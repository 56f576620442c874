[package]
name = "onbrix"
version = "0.1.0"
edition = "2021"
publish = false

[dependencies]
chrono = "*"
rusqlite = { version = "*", features = ["bundled"] }
tokio = { version = "*", features = ["rt-multi-thread", "macros", "sync", "time"] }
serde = { version = "*", features = ["derive"] }
serde_json = "*"
dirs = "*"

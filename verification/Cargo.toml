[package]
name = "diagram_store"
version = "0.1.0"
edition = "2021"
publish = false

[dependencies]
tokio = { version = "*", features = ["macros", "rt-multi-thread", "signal", "time", "fs", "net"] }
axum = "*"
serde_json = "*"
chrono = "*"
tower-http = { version = "*", features = ["cors"] }

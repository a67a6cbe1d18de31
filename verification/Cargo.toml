[package]
name = "judge"
version = "0.1.0"
edition = "2021"
publish = false

[dependencies]
rand = "=0.9.5"
anyhow = "=1.0.104"
async-trait = "=0.1.92"
axum = { version = "=0.8.9", features = ["ws"] }
chrono = "=0.4.45"
futures-util = { version = "=0.3.34", features = ["sink"] }
jsonwebtoken = "=9.3.1"
landlock = "=0.4.7"
serde = { version = "=1.0.229", features = ["derive"] }
serde_json = "=1.0.154"
tokio = { version = "=1.54.1", features = ["rt-multi-thread", "macros", "sync", "time", "net"] }
uuid = { version = "=1.29.0", features = ["v4"] }

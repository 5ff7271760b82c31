[package]
name = "table_store"
version = "0.1.0"
edition = "2021"
publish = false

[dependencies]
serde_json = "1"
serde = { version = "1", features = ["derive"] }
chrono = "0.4"
clap = { version = "4", features = ["derive", "env"] }
futures = "0.3"
jsonwebtoken = "9"
poem = { version = "3", features = ["test"] }
poem-grants = "3"
poem-openapi = "5"
tokio = { version = "1", features = ["rt-multi-thread", "macros"] }
tracing-subscriber = { version = "0.3", features = ["env-filter"] }
uuid = { version = "1", features = ["v4"] }

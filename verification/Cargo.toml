[package]
name = "agent_core"
version = "0.1.0"
edition = "2021"
publish = false

[dependencies]
serde_json = "1"
uuid = { version = "1", features = ["v4"] }
tokio-util = "0.7"
tokio = { version = "1", features = ["sync", "time", "rt", "macros"] }
serde = { version = "1", features = ["derive"] }
thiserror = "2"
async-trait = "0.1"
futures = "0.3"
tracing = "0.1"
reqwest = { version = "0.12", default-features = false, features = ["json"] }
dashmap = "6"

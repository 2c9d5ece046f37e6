[package]
name = "agent_works"
version = "0.1.0"
edition = "2021"
publish = false

[dependencies]
agent-base = "0.5"
async-trait = "0.1"
dirs = "6"
futures-util = "0.3"
reqwest = { version = "0.12", default-features = false, features = ["json"] }
serde = { version = "1", features = ["derive"] }
serde_json = "1"
serde_yaml = "0.9"
tokio = { version = "1", features = ["full"] }

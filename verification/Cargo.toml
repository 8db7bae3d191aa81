[package]
name = "agent_evaluation"
version = "0.2.10"
edition = "2021"
publish = false

[dependencies]
uuid = { version = "1", features = ["v4"] }
tracing = "0.1"

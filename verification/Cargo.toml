[package]
name = "anthropic_wire"
version = "0.1.0"
edition = "2021"
publish = false

[dependencies]
async-anthropic = "*"
serde_json = "1"
futures = "0.3"
secrecy = "*"
tokio = { version = "1", features = ["sync", "time", "rt", "macros"] }

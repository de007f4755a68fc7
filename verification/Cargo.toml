[package]
name = "barter-data"
version = "0.1.0"
edition = "2021"
publish = false

[dependencies]
async-trait = "0.1"
barter-integration = "*"
futures = "0.3"
tokio = { version = "1", features = ["sync", "time", "rt", "macros"] }
tracing = "0.1"

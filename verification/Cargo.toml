[package]
name = "leader_election"
version = "0.1.0"
edition = "2021"
publish = false

[dependencies]
httparse = "1"
rand = "0.8"
futures = "0.3"
tokio = { version = "1", features = ["rt-multi-thread", "macros", "time"] }
reqwest = { version = "0.12", default-features = false }

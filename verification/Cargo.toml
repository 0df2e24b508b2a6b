[package]
name = "spawned-concurrency"
version = "0.1.0"
edition = "2021"
publish = false

[dependencies]
tokio = { version = "1", features = ["rt", "rt-multi-thread", "sync", "time", "macros"] }
futures = "0.3"
tracing = "0.1"
thiserror = "2"
dashmap = "6"
once_cell = "1"
pin-project-lite = "0.2"

[package]
name = "cluster_stats"
version = "0.1.0"
edition = "2021"
publish = false

[dependencies]
time = "0.3"
serde = { version = "1", features = ["derive"] }
serde_json = "1"
diesel = { version = "2", default-features = false, features = ["postgres_backend", "serde_json"] }
error-stack = "0.4"
tracing = "0.1"

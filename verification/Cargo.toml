[package]
name = "tome"
version = "0.1.0"
edition = "2021"
publish = false

[dependencies]
serde = { version = "=1.0.229", features = ["derive"] }
serde_json = "=1.0.151"
sysinfo = "=0.39.6"
tokio = { version = "=1.53.2", features = ["full"] }
rmcp = { version = "=3.5.1", default-features = false, features = ["client", "transport-child-process"] }
reqwest = { version = "=0.13.5", default-features = false, features = ["json"] }
futures = "=0.3.34"

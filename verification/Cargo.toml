[package]
name = "domain_actions"
version = "0.1.0"
edition = "2021"
publish = false

[dependencies]
uuid = { version = "=1.29.0", features = ["v4"] }
serde_json = "=1.0.154"
chrono = { version = "=0.4.45", default-features = false, features = ["std"] }
tokio = { version = "1", default-features = false, features = ["rt", "time"] }
log = "0.4"
dotenv = "0.15"

[package]
name = "mcgill-wtf"
version = "0.1.0"
edition = "2021"
publish = false

[dependencies]
anyhow = "1"
axum = "*"
axum-server = "*"
clap = { version = "4", features = ["derive"] }
env_logger = "*"
http = "*"
log = "*"
redis = "*"
reqwest = { version = "0.12", default-features = false, features = ["blocking", "rustls-tls"] }
scraper = "*"
serde = { version = "1", features = ["derive"] }
serde_json = "1"
tokio = { version = "1", features = ["rt-multi-thread"] }
tower-http = { version = "*", features = ["cors"] }
uuid = { version = "1", features = ["v5"] }

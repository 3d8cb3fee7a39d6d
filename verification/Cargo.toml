[package]
name = "birbs"
version = "0.1.0"
edition = "2021"
publish = false

[dependencies]
anyhow = "1"
axum = "0.6"
chrono = "0.4"
chrono-tz = "*"
clap = { version = "4", features = ["derive"] }
futures = "0.3"
influxdb2 = "*"
notify = "6"
reqwest = { version = "0.11", default-features = false, features = ["rustls-tls", "json"] }
rusqlite = { version = "*", features = ["bundled"] }
serde = { version = "1", features = ["derive"] }
tokio = { version = "1", features = ["full"] }
tokio-stream = "0.1"
tower-http = { version = "0.4", features = ["cors", "trace"] }
tracing = "0.1"
tracing-subscriber = { version = "0.3", features = ["env-filter"] }

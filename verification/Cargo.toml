[package]
name = "geozarr_core"
version = "0.1.0"
edition = "2021"
publish = false

[dependencies]
bytes = "=1.12.1"
chrono = "=0.4.45"
color-eyre = "=0.6.5"
duckdb = "=1.20000.1"
flate2 = "=1.1.10"
opendal = { version = "=0.48.0", features = ["services-fs", "services-http", "services-s3", "services-memory"] }
reqwest = { version = "=0.12.28", default-features = false, features = ["blocking", "json", "rustls-tls"] }
serde = { version = "=1.0.229", features = ["derive"] }
serde_json = "=1.0.154"
tokio = { version = "=1.54.1", features = ["rt-multi-thread", "macros"] }
zarrs = { version = "=0.16.4", features = ["opendal", "async"] }

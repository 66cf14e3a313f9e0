[package]
name = "fire_ctrl"
version = "0.1.0"
edition = "2021"
publish = false

[dependencies]
anyhow = "=1.0.104"
axum = "=0.8.9"
chromiumoxide = { version = "=0.7.0", default-features = false, features = ["tokio-runtime"] }
chrono = { version = "=0.4.45", features = ["serde"] }
clap = { version = "=4.6.7", features = ["derive"] }
deadpool-postgres = "=0.14.2"
dotenvy = "=0.15.7"
futures = "=0.3.34"
htmd = "=0.5.6"
redis = { version = "=0.27.6", features = ["tokio-comp"] }
reqwest = { version = "=0.12.28", default-features = false, features = ["json", "rustls-tls"] }
robotstxt = "=0.3.0"
scraper = "=0.29.0"
serde = { version = "=1.0.229", features = ["derive"] }
serde_json = { version = "=1.0.154", features = ["raw_value"] }
sitemap = "=0.4.1"
sysinfo = "=0.33.1"
tokio = { version = "=1.54.1", features = ["full"] }
tokio-postgres = { version = "=0.7.18", features = ["with-chrono-0_4", "with-uuid-1", "with-serde_json-1"] }
tower-http = { version = "=0.6.11", features = ["compression-gzip", "cors", "trace"] }
tracing = "=0.1.44"
tracing-subscriber = { version = "=0.3.23", features = ["env-filter", "json"] }
url = "=2.5.8"
urlencoding = "=2.1.3"
uuid = { version = "=1.29.0", features = ["v4", "serde"] }

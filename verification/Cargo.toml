[package]
name = "kasir_cache"
version = "0.1.0"
edition = "2021"
publish = false

[dependencies]
serde_json = "*"
urlencoding = "*"
scraper = "*"
serde = { version = "*", features = ["derive"] }
tokio = { version = "*", features = ["rt-multi-thread", "macros", "time", "sync", "fs", "net"] }
axum = "*"
tower-http = { version = "*", features = ["cors"] }
reqwest = { version = "*", default-features = false, features = ["rustls-tls"] }
rand = "*"
dotenv = "*"
tracing = "*"
tracing-subscriber = { version = "*", features = ["env-filter", "fmt"] }

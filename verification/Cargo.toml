[package]
name = "nota"
version = "0.1.0"
edition = "2021"
publish = false

[dependencies]
anyhow = "=1.0.104"
async-trait = "=0.1.92"
axum = { version = "=0.8.9", features = ["ws"] }
chrono = "=0.4.45"
clap = { version = "=4.6.7", features = ["derive"] }
crudly = { version = "=0.6.0", features = ["sqlite"] }
dialoguer = "=0.11.0"
dirs = "=7.0.0"
futures-util = "=0.3.34"
log = "=0.4.35"
reqwest = { version = "=0.12.28", default-features = false, features = ["json", "rustls-tls"] }
serde = { version = "=1.0.229", features = ["derive"] }
serde_json = "=1.0.154"
sqlx = { version = "=0.9.0", default-features = false, features = ["sqlite", "runtime-tokio", "migrate", "macros"] }
tokio = { version = "=1.54.1", features = ["rt-multi-thread", "macros", "sync", "fs", "net", "time"] }
tokio-util = "=0.7.20"
toml = "=1.1.8"
tower-http = { version = "=0.7.1", features = ["fs"] }
tracing = "=0.1.44"
tracing-appender = "=0.2.5"
tracing-log = "=0.2.0"
tracing-subscriber = "=0.3.23"
uuid = { version = "=1.29.0", features = ["v4"] }
walkdir = "=2.5.0"

[package]
name = "meta-agents-server"
version = "0.1.0"
edition = "2021"
publish = false

[dependencies]
lru = { version = "=0.12.5", default-features = false }
serde = { version = "=1.0.229", features = ["derive"] }
serde_json = "=1.0.154"
axum = { version = "=0.7.9", features = ["ws"] }
tokio = { version = "=1.54.1", features = ["full"] }
futures-util = "=0.3.34"
clap = { version = "=4.6.7", features = ["derive", "env"] }
anyhow = "=1.0.104"
tracing = "=0.1.44"
tracing-subscriber = { version = "=0.3.23", features = ["env-filter"] }
leptos = { version = "=0.6.15", features = ["ssr"] }

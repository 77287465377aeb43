[package]
name = "zora-aomi-tools"
version = "0.1.0"
edition = "2021"
publish = false

[dependencies]
regex = "=1.13.1"
anyhow = "=1.0.104"
async-trait = "=0.1.92"
serde = { version = "=1.0.229", features = ["derive"] }
serde_json = "=1.0.154"
tokio = { version = "=1.54.1", features = ["rt-multi-thread", "macros", "time", "net"] }
reqwest = { version = "=0.12.28", default-features = false, features = ["json", "rustls-tls"] }
chrono = "=0.4.45"
dotenvy = "=0.15.7"
axum = "=0.8.9"
async-graphql = "=7.2.1"
async-graphql-axum = "=7.2.1"
tower-http = { version = "=0.6.11", features = ["cors"] }
aomi-sdk = "=6.0.1"
schemars = "=1.2.3"

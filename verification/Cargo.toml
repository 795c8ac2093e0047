[package]
name = "broker"
version = "0.1.0"
edition = "2021"
publish = false

[dependencies]
async-nats = "*"
bytes = "1"
deadpool-postgres = "*"
dotenvy = "*"
futures-util = "*"
hex = "*"
openssl = "*"
postgres-openssl = "*"
redis = { version = "*", features = ["tokio-comp"] }
sentry = "*"
serde = { version = "1", features = ["derive"] }
serde_json = "1"
tokio = { version = "1", features = ["full"] }
tokio-postgres = "*"

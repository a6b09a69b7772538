[package]
name = "kuiper_runtime"
version = "0.1.0"
edition = "2021"
publish = false

[dependencies]
serde_json = { version = "*", features = ["preserve_order"] }
chrono = "*"
uuid = { version = "*", features = ["v4"] }
serde = { version = "*", features = ["derive"] }
clap = { version = "*", features = ["derive"] }
tokio = { version = "*", features = ["full"] }
tokio-util = "*"
anyhow = "*"
walkdir = "*"
serde_yml = "*"
dashmap = "*"
futures-util = "*"
actix-web = "*"
actix-ws = "*"
async-trait = "*"
tracing = "*"
tracing-subscriber = { version = "*", features = ["env-filter"] }
opentelemetry = "*"
opentelemetry_sdk = "*"
opentelemetry-stdout = "*"
tracing-opentelemetry = "*"

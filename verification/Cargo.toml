[package]
name = "serverless"
version = "0.1.0"
edition = "2021"
publish = false

[dependencies]
wasmtime = "=48.0.8"
wasmparser = "=0.263.0"
serde_json = "=1.0.154"
anyhow = "=1.0.104"
tokio = { version = "=1.54.1", features = ["full"] }
sqlx = { version = "=0.8.6", default-features = false, features = ["runtime-tokio", "mysql"] }
dotenvy = "=0.15.7"
ordered-float = "=5.5.1"
priority-queue = "=2.7.0"

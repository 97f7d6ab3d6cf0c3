[package]
name = "ten_values"
version = "0.1.0"
edition = "2021"
publish = false

[dependencies]
anyhow = "*"
clap = "*"
console = "*"
mimalloc = "*"
opentelemetry = "*"
opentelemetry-otlp = { version = "*", features = ["logs", "grpc-tonic", "http-proto"] }
opentelemetry_sdk = { version = "*", features = ["logs"] }
serde_json = "*"
tokio = { version = "*", features = ["rt-multi-thread", "sync"] }
tracing = "*"
tracing-subscriber = "*"

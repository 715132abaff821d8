[package]
name = "constellation"
version = "0.1.0"
edition = "2021"
publish = false

[dependencies]
axum = { version = "=0.8.9", features = ["ws"] }
futures = "=0.3.34"
gateway-api = "=0.22.0"
k8s-openapi = { version = "=0.28.0", features = ["latest"] }
kube = { version = "=4.2.0", features = ["runtime"] }
serde = { version = "=1.0.229", features = ["derive"] }
serde_json = "=1.0.154"
tokio = { version = "=1.54.1", features = ["full"] }
tower-http = { version = "=0.7.1", features = ["fs"] }
tracing = "=0.1.44"
tracing-subscriber = "=0.3.23"

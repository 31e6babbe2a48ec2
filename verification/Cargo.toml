[package]
name = "upstreamer"
version = "0.1.0"
edition = "2021"
publish = false

[dependencies]
dashmap = "6"
url = "2"
rand = "0.9"
tokio = { version = "1", features = ["full"] }
hyper = { version = "1", features = ["server", "client", "http1"] }
hyper-util = { version = "0.1", features = ["client-legacy", "http1", "tokio", "server"] }
http-body-util = "0.1"
bytes = "1"
serde = { version = "1", features = ["derive"] }
serde_json = "1"
toml = "0.8"
humantime-serde = "1"
clap = { version = "4", features = ["derive"] }
anyhow = "1"
thiserror = "2"
tracing = "0.1"
tracing-subscriber = { version = "0.3", features = ["env-filter"] }
metrics = "*"
metrics-exporter-prometheus = { version = "*", default-features = false }
notify = "*"
libc = "0.2"
futures = "0.3"
kube = { version = "*", default-features = false, features = ["client", "runtime"] }
kube-runtime = "*"
k8s-openapi = { version = "*", features = ["latest"] }
arc-swap = "1"

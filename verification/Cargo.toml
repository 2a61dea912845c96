[package]
name = "praxis_ai"
version = "0.1.0"
edition = "2021"
publish = false

[dependencies]
arc-swap = "=1.9.3"
async-trait = "=0.1.92"
clap = { version = "=4.6.7", features = ["derive"] }
futures = "0.3"
http = "=1.5.0"
metrics = "=0.24.6"
notify = "=8.2.1"
praxis-proxy-core = { version = "=0.7.5", default-features = false }
praxis-proxy-filter = { version = "=0.7.5", default-features = false, features = ["spiffe"] }
prost = "0.13"
redis = { version = "=1.8.1", default-features = false, features = ["aio", "tokio-comp"] }
serde = { version = "=1.0.229", features = ["derive"] }
serde_json = "=1.0.154"
sha2 = "=0.10.9"
thiserror = "=2.0.21"
tokio = { version = "=1.53.3", features = ["full"] }
tokio-stream = "0.1"
tokio-util = "=0.7.20"
tonic = "0.12"
tracing = "=0.1.44"
tracing-subscriber = "=0.3.23"
yaml_serde = "=0.10.7"
zeroize = "=1.9.1"

[package]
name = "journalsqld"
version = "0.1.0"
edition = "2021"
publish = false

[dependencies]
anyhow = "=1.0.104"
base64 = "=0.23.1"
clickhouse = { version = "=0.15.2", features = ["inserter"] }
env_logger = "=0.11.11"
log = "=0.4.34"
num_cpus = "=1.17.0"
prometheus = "=0.14.0"
serde = { version = "=1.0.229", features = ["derive"] }
serde_json = "=1.0.151"
signal-hook = "=0.4.5"
strip-ansi-escapes = "=0.2.1"
thiserror = "=1.0.69"
time = "=0.3.55"
tokio = { version = "=1.53.2", features = ["rt-multi-thread", "macros", "sync"] }
url = "=2.5.8"

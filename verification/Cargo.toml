[package]
name = "knowledge_mcp"
version = "0.1.0"
edition = "2021"
publish = false

[dependencies]
anyhow = "=1.0.104"
bincode = "=1.3.3"
dirs = "=7.0.0"
fastembed = { version = "=7.5.0", default-features = false, features = ["onnx", "hf-hub-rustls-tls"] }
grep-regex = "=0.1.14"
grep-searcher = "=0.1.17"
lru = "=0.19.0"
notify = "=8.2.1"
notify-debouncer-mini = "=0.7.0"
petgraph = "=0.8.3"
pulldown-cmark = { version = "=0.13.6", default-features = false }
rayon = "=1.12.0"
regex = "=1.13.1"
rmcp = { version = "=3.8.0", features = ["server", "transport-io", "elicitation"] }
schemars = "=1.2.3"
seahash = "=4.1.0"
serde = { version = "=1.0.229", features = ["derive"] }
serde_json = "=1.0.154"
thiserror = "=2.0.21"
tokio = { version = "=1.54.1", features = ["full"] }
tracing = "=0.1.44"
tracing-subscriber = { version = "=0.3.23", features = ["env-filter"] }
walkdir = "=2.5.0"

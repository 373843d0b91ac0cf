[package]
name = "arxiv_query"
version = "0.1.0"
edition = "2021"
publish = false

[dependencies]
url = { version = "=2.5.8", features = ["serde"] }
chrono = "=0.4.45"
quick-xml = { version = "=0.42.0", features = ["serialize", "overlapped-lists"] }
serde = { version = "=1.0.229", features = ["derive"] }
serde_json = "=1.0.154"
schemars = { version = "=0.8.22", features = ["url"] }
extism-pdk = "=1.4.1"
anyhow = "=1.0.104"

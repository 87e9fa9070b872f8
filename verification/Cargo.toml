[package]
name = "index_mcp"
version = "0.1.0"
edition = "2021"
publish = false

[dependencies]
anyhow = "=1.0.104"
chrono = { version = "=0.4.45", default-features = false, features = ["std", "clock"] }
clap = { version = "=4.6.7", features = ["derive", "env"] }
fastembed = { version = "=5.2.1", default-features = false, features = ["ort-load-dynamic"] }
globset = "=0.4.21"
hex = "=0.4.3"
ignore = "=0.4.34"
dirs = "=6.0.0"
metrics = "0.24"
notify = "=6.1.1"
once_cell = "=1.21.4"
rayon = "=1.12.0"
regex = "=1.13.1"
reqwest = { version = "=0.12.28", default-features = false, features = ["json"] }
rmcp = { version = "=0.8.5", default-features = false, features = ["base64", "client", "server", "macros", "transport-io", "transport-sse-client-reqwest"] }
rusqlite = { version = "=0.41.1", features = ["bundled"] }
serde = { version = "=1.0.229", features = ["derive"] }
serde_json = "=1.0.154"
sha2 = "=0.10.9"
thiserror = "=2.0.21"
tokio = { version = "=1.54.1", features = ["rt-multi-thread", "macros", "time", "sync", "process", "io-std", "io-util", "fs"] }
tracing = "=0.1.44"
tracing-appender = "=0.2.5"
tracing-subscriber = { version = "=0.3.23", features = ["env-filter"] }
url = "=2.5.8"
uuid = { version = "=1.29.0", features = ["v4"] }
walkdir = "=2.5.0"

[dev-dependencies]
tempfile = "=3.27.0"

[package]
name = "read_text"
version = "0.1.0"
edition = "2021"
publish = false

[dependencies]
alkana-rs = "=0.1.0"
anyhow = "1"
dotenv = "0.15"
poise = { version = "0.3", default-features = false, features = ["cache"] }
rand = "0.8"
regex = "=1.13.1"
reqwest = { version = "0.11", default-features = false, features = ["json", "rustls-tls"] }
serde = { version = "1", features = ["derive"] }
serde_json = "1"
serenity = { version = "0.11", default-features = false, features = ["builder", "cache", "client", "gateway", "http", "model", "utils", "rustls_backend"] }
tempfile = "3"
tokio = { version = "1", features = ["macros", "rt-multi-thread"] }
tracing = "0.1"
tracing-subscriber = { version = "0.3", default-features = false, features = ["fmt"] }
wana_kana = "=2.1.2"

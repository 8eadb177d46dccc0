[package]
name = "hftlive"
version = "0.1.0"
edition = "2021"
publish = false

[dependencies]
rand = "=0.9.5"
hmac = "=0.12.1"
sha2 = "=0.10.9"
hashbrown = "=0.15.5"
serde = { version = "=1.0.229", features = ["derive"] }
serde_json = "=1.0.154"
toml = "=0.8.23"
tokio = { version = "=1.54.1", features = ["full"] }
anyhow = "=1.0.104"
thiserror = "=2.0.21"
tracing = "=0.1.44"
tracing-subscriber = "=0.3.23"
clap = { version = "=4.6.7", features = ["derive"] }
reqwest = { version = "=0.12.28", default-features = false, features = ["json", "rustls-tls"] }
chrono = "=0.4.45"
futures-util = "=0.3.34"
tokio-tungstenite = { version = "=0.30.0", features = ["rustls-tls-webpki-roots"] }

[package]
name = "algo_trading"
version = "0.1.0"
edition = "2021"
publish = false

[dependencies]
rust_decimal = "1"
uuid = { version = "1", features = ["v4"] }
chrono = "0.4"
hmac = "0.12"
sha2 = "0.10"
hex = "0.4"
dashmap = "5"
anyhow = "1"
async-trait = "0.1"
clap = { version = "4", features = ["derive"] }
dotenv = "0.15"
futures-util = { version = "0.3", features = ["sink"] }
reqwest = { version = "0.11", default-features = false, features = ["json", "rustls-tls"] }
serde = { version = "1", features = ["derive"] }
serde_json = "1"
tokio = { version = "1", features = ["full"] }
tokio-tungstenite = { version = "0.21", features = ["rustls-tls-webpki-roots"] }
tracing = "0.1"
tracing-subscriber = { version = "0.3", features = ["json", "env-filter"] }
rand = "0.8"

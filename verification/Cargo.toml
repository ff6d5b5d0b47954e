[package]
name = "mailward"
version = "0.1.0"
edition = "2021"
publish = false

[dependencies]
regex = "=1.13.1"
serde = { version = "=1.0.229", features = ["derive"] }
serde_yaml_ng = "=0.10.0"
serde_json = "=1.0.154"
thiserror = "=2.0.21"
mail-parser = "=0.11.9"
utf7-imap = "=0.3.2"
url = "=2.5.8"
chrono = "=0.4.45"
oauth2 = "=5.0.0"
async-imap = "=0.12.0"
tokio = { version = "=1.54.1", features = ["full"] }
tokio-rustls = { version = "=0.26.6", default-features = false, features = ["ring", "tls12", "logging"] }
tokio-util = { version = "=0.7.20", features = ["compat"] }
tokio-stream = { version = "=0.1.19", features = ["sync"] }
futures = "=0.3.34"
webpki-roots = "=1.0.10"
async-graphql = "=7.2.1"
async-graphql-axum = "=7.2.1"
axum = "=0.8.9"
tower-http = { version = "=0.6.11", features = ["cors", "fs"] }

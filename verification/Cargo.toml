[package]
name = "penlight_dream_box"
version = "0.1.0"
edition = "2021"
publish = false

[dependencies]
aes = "0.8"
cbc = "0.1"
axum = "0.8"
bson = "2"
dotenvy = "0.15"
futures = "0.3"
mongodb = "3"
reqwest = { version = "0.12", default-features = false, features = ["json", "rustls-tls"] }
serde = { version = "1", features = ["derive"] }
serde_json = "1"
thiserror = "2"
tokio = { version = "1", features = ["full"] }
tower-http = { version = "0.6", features = ["compression-gzip", "compression-br"] }
tracing = "0.1"
tracing-subscriber = { version = "0.3", features = ["env-filter"] }

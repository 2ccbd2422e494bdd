[package]
name = "microblog"
version = "0.1.0"
edition = "2021"
publish = false

[dependencies]
password-auth = "=1.0.0"
axum = "=0.8.9"
axum-login = "=0.18.0"
axum-messages = "=0.8.0"
tower-sessions = { version = "=0.14.0", features = ["memory-store"] }
tokio = { version = "=1.53.2", features = ["full"] }
serde = { version = "=1.0.229", features = ["derive"] }
anyhow = "=1.0.104"
thiserror = "=2.0.21"
figment = { version = "=0.10.19", features = ["toml", "env"] }

[package]
name = "webhook"
version = "0.1.0"
edition = "2021"
publish = false

[dependencies]
anyhow = "1"
async-compression = { version = "0.4", features = ["tokio", "gzip"] }
axum = "0.7"
bcrypt = "0.15"
chrono = { version = "0.4", features = ["serde"] }
clap = { version = "4", features = ["derive", "env"] }
flate2 = "1"
futures-util = "0.3"
hostname = "0.4"
humantime-serde = "1"
rand = "0.8"
rpassword = "7"
serde = { version = "1", features = ["derive"] }
serde_json = "1"
tokio = { version = "1", features = ["full"] }
toml = "0.8"
tower-http = { version = "0.5", features = ["trace"] }
tracing = "0.1"
tracing-subscriber = { version = "0.3", features = ["env-filter", "json"] }
urlencoding = "2"

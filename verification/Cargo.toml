[package]
name = "gateway_core"
version = "0.1.0"
edition = "2021"
publish = false

[dependencies]
regex = "*"
pingora-limits = "*"
form_urlencoded = "*"
pingora = "*"
bollard = "*"
tokio = { version = "*", features = ["full"] }
tokio-util = "*"
axum = "*"
serde = { version = "*", features = ["derive"] }
serde_yaml = "*"
anyhow = "*"
async-trait = "*"

[package]
name = "hubless"
version = "0.1.0"
edition = "2021"
publish = false

[dependencies]
anyhow = "1"
async-trait = "0.1"
axum = "0.7"
russh = "0.40"
russh-keys = "0.40"
serde_json = "1"
tokio = { version = "1", features = ["full"] }

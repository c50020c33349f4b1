[package]
name = "llm_wiki"
version = "0.1.0"
edition = "2021"
publish = false

[dependencies]
argon2 = { version = "0.5", features = ["std"] }
async-stream = "0.3"
axum = "0.8"
base64 = "0.22"
blake3 = "1"
chrono = "0.4"
futures = "0.3"
image = { version = "0.25", default-features = false, features = ["png"] }
md-5 = "0.10"
mime_guess = "2"
notify = "7"
parking_lot = "0.12"
pdfium-render = "0.8"
rust-embed = "8"
serde = { version = "1", features = ["derive"] }
serde_json = "1"
thiserror = "1"
tokio = { version = "1", features = ["full"] }
toml = "0.8"
tower-cookies = "0.11"
walkdir = "2"

[dev-dependencies]
tempfile = "3"

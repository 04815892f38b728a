[package]
name = "geoguessr_bot"
version = "0.1.0"
edition = "2021"
publish = false

[dependencies]
anyhow = "1"
axum = "0.7"
base64 = "0.22"
chrono = { version = "0.4", features = ["serde"] }
chrono-tz = "0.10"
flate2 = "1"
image = { version = "0.25", default-features = false, features = ["jpeg", "png", "gif", "webp"] }
matrix-sdk = { version = "0.14", default-features = false, features = ["rustls-tls"] }
mime = "0.3"
rand = "0.8"
reqwest = { version = "0.12", default-features = false, features = ["json", "rustls-tls"] }
rusqlite = { version = "0.37", features = ["bundled"] }
serde = { version = "1", features = ["derive"] }
serde_json = "1"
staticmap = "0.4"
tiny-skia = "0.11"
tokio = { version = "1", features = ["full"] }
toml = "0.8"
tracing = "0.1"
tracing-subscriber = { version = "0.3", features = ["env-filter"] }

[package]
name = "grid_challenge"
version = "0.1.0"
edition = "2021"
publish = false

[dependencies]
rand = "0.9"
argon2 = { version = "0.5", features = ["std"] }
anyhow = "1"
axum = { version = "0.8", features = ["multipart"] }
tokio = { version = "1", features = ["full"] }
tokio-stream = "0.1"
reqwest = { version = "0.12", default-features = false, features = ["json", "rustls-tls"] }
rusqlite = { version = "*", features = ["bundled"] }
tokio-rusqlite = "*"
tower-http = { version = "*", features = ["fs"] }
tower-sessions = "*"
tower-sessions-rusqlite-store = "*"
serde = { version = "1", features = ["derive"] }
serde_json = "1"
geo = "0.30"
geo-types = "0.7"
gpx = "*"
time = { version = "0.3", features = ["formatting"] }

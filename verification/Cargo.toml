[package]
name = "projector"
version = "0.1.0"
edition = "2021"
publish = false

[dependencies]
chrono = "=0.4.45"
serde = { version = "=1.0.229", features = ["derive"] }
serde_json = "=1.0.154"
toml = { version = "=0.8.23", features = ["preserve_order"] }
uuid = { version = "=1.29.0", features = ["v4", "serde"] }
thiserror = "=2.0.21"
git2 = { version = "=0.21.0", default-features = false }
notify = "=8.2.1"
axum = "=0.8.9"
tokio = { version = "=1.54.1", features = ["rt-multi-thread", "net", "macros"] }
tempfile = "=3.27.0"

[dev-dependencies]
tower = { version = "=0.5.3", features = ["util"] }

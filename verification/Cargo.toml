[package]
name = "plate-studio"
version = "0.1.0"
edition = "2021"
publish = false

[dependencies]
rand = "0.9"
chrono = { version = "0.4", features = ["serde"] }
image = { version = "0.25", default-features = false, features = ["png", "jpeg"] }
base64 = "0.22"
serde = { version = "1", features = ["derive"] }
serde_json = "1"
tokio = { version = "1", features = ["rt-multi-thread", "macros", "sync", "net", "time"] }
axum = { version = "0.8", features = ["ws"] }
tower-http = { version = "0.6", features = ["cors"] }
tracing = "0.1"
tracing-subscriber = { version = "0.3", features = ["env-filter"] }
anyhow = "1"
eframe = { version = "0.31", default-features = false, features = ["glow", "x11", "default_fonts"] }
arboard = "3"

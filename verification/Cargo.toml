[package]
name = "dpcrawler"
version = "0.1.0"
edition = "2021"
publish = false

[dependencies]
url = "2"
base64 = "0.22"
mime_guess = "2"
serde_yaml = "0.9"
serde = { version = "1", features = ["derive"] }
serde_json = "1"
tokio = { version = "1", features = ["rt-multi-thread", "macros", "net", "fs", "sync"] }
axum = "0.7"
tower-http = { version = "0.6", features = ["cors"] }
rayon = "1"
dirs = "5"
libc = "0.2"
egui = { version = "0.31", default-features = false }

[package]
name = "foxlite"
version = "0.1.0"
edition = "2021"
publish = false

[dependencies]
base64 = "0.22"
brotli = "8"
serde = { version = "1", features = ["derive"] }
serde_json = "1"
tauri = { version = "2", default-features = false, features = ["devtools", "unstable", "wry"] }
url = "2"

[package]
name = "hyprcollab"
version = "0.1.0"
edition = "2021"
publish = false

[dependencies]
base64 = "=0.22.1"
pulldown-cmark = { version = "=0.12.2", default-features = false }
html5ever = "=0.29.1"
csv = "=1.4.0"
serde = { version = "=1.0.229", features = ["derive"] }
serde_json = "=1.0.154"
lopdf = "=0.46.0"
mime_guess = "=2.0.5"
uuid = { version = "=1.29.0", features = ["v4"] }
image = { version = "=0.25.10", default-features = false, features = ["png"] }
chrono = "=0.4.45"
rusqlite = { version = "=0.41.1", features = ["bundled"] }
thiserror = "=1.0.69"
anyhow = "=1.0.104"

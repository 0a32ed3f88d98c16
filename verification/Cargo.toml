[package]
name = "mercury"
version = "0.1.0"
edition = "2021"
publish = false

[dependencies]
base64 = "=0.23.1"
serde = { version = "=1.0.229", features = ["derive"] }
serde_json = "=1.0.154"
serde_yaml = "=0.9.34"
dirs = "=7.0.0"
reqwest = { version = "=0.12.28", default-features = false, features = ["blocking", "cookies", "rustls-tls"] }
notify-debouncer-mini = "=0.7.0"
open = "=5.4.5"
rfd = "=0.17.2"
eframe = { version = "=0.33.3", default-features = false, features = ["default_fonts", "glow", "x11"] }
egui = "=0.33.3"
image = { version = "=0.25.10", default-features = false, features = ["png"] }
thiserror = "=2.0.21"

[dev-dependencies]
tempfile = "=3.27.0"

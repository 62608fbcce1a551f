[package]
name = "dsh_thin_desktop"
version = "0.1.0"
edition = "2021"
publish = false

[dependencies]
serde = { version = "1", features = ["derive"] }
serde_json = "1"
ureq = { version = "3", default-features = false, features = ["json"] }
tokio = { version = "1", features = ["time", "macros", "rt-multi-thread"] }
tokio-tungstenite = "0.28"
futures-util = "0.3"
tauri = { version = "2", default-features = false }

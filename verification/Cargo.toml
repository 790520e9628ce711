[package]
name = "dangit"
version = "0.1.0"
edition = "2021"
publish = false

[dependencies]
anyhow = "*"
crossterm = { version = "*", features = ["event-stream"] }
futures = "*"
ratatui = "*"
reqwest = { version = "*", default-features = false, features = ["json", "rustls-tls"] }
secrecy = "*"
serde = { version = "*", features = ["derive"] }
serde_json = "*"
tachyonfx = "*"
tokio = { version = "*", features = ["macros", "rt-multi-thread"] }
webbrowser = "*"

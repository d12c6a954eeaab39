[package]
name = "speed"
version = "1.0.0"
edition = "2021"
publish = false

[dependencies]
anyhow = "1"
crossterm = "0.28"
futures-util = "0.3"
ratatui = { version = "0.29", default-features = false, features = ["crossterm"] }
reqwest = { version = "0.12", default-features = false, features = ["json", "rustls-tls", "stream"] }
serde = { version = "1", features = ["derive"] }
tokio = { version = "1", features = ["macros", "rt-multi-thread", "sync", "time"] }

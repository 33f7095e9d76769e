[package]
name = "restie"
version = "0.1.0"
edition = "2021"
publish = false

[dependencies]
serde = { version = "1", features = ["derive"] }
serde_json = "1"
serde_yaml = "0.9"
clap = "4"
reqwest = { version = "0.12", default-features = false, features = ["json", "rustls-tls", "socks"] }
tokio = { version = "1", features = ["macros", "rt-multi-thread"] }

[package]
name = "a3s_boot"
version = "0.1.0"
edition = "2021"
publish = false

[dependencies]
serde = { version = "1", features = ["derive"] }
serde_json = "1"
serde_urlencoded = "0.7"
axum = "0.8"
tokio = { version = "1", features = ["macros", "rt-multi-thread", "net", "signal", "sync"] }
thiserror = "2"
futures-util = "0.3"
futures-core = "0.3"
schemars = "1"

[package]
name = "axum_jetpack"
version = "0.1.0"
edition = "2021"
publish = false

[dependencies]
axum = "0.7"
futures = "0.3"
futures-util = "0.3"
hyper = "1"
pin-project = "1"
serde = { version = "1", features = ["derive"] }
serde_json = "1"
tokio = { version = "1", features = ["macros", "net", "rt-multi-thread", "sync", "time"] }
tokio-stream = "0.1"
tower = "0.4"

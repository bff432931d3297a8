[package]
name = "motus"
version = "0.1.0"
edition = "2021"
publish = false

[dependencies]
rand = "0.9"
uuid = { version = "1", features = ["v4", "serde"] }
axum = "0.8"
tokio = { version = "1", features = ["macros", "rt-multi-thread", "net", "time", "signal"] }
tower-http = { version = "0.6", features = ["cors", "trace"] }
tracing = "0.1"
tracing-subscriber = { version = "0.3", features = ["env-filter", "fmt"] }
serde = { version = "1", features = ["derive"] }
serde_json = "1"

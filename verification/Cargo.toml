[package]
name = "chat_server"
version = "0.1.0"
edition = "2021"
publish = false

[dependencies]
rand = "*"
base64 = "*"
chrono = { version = "*", features = ["serde"] }
tokio = { version = "*", features = ["full"] }
sea-orm = { version = "*", default-features = false, features = ["sqlx-sqlite", "runtime-tokio", "macros", "with-chrono"] }
axum = { version = "*", features = ["ws"] }
axum-extra = { version = "*", features = ["cookie"] }
tower-http = { version = "*", features = ["trace"] }
tracing = "*"
tracing-subscriber = { version = "*", features = ["env-filter"] }
futures = "*"
serde = { version = "*", features = ["derive"] }
serde_json = "*"

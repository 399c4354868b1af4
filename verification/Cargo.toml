[package]
name = "todo_service"
version = "0.1.0"
edition = "2021"
publish = false

[dependencies]
anyhow = "1.0"
axum = "=0.4.8"
diesel = { version = "=1.4.8", default-features = false, features = ["postgres"] }
dotenv = "0.15.0"
http-body = "0.4.6"
hyper = { version = "0.14.32", features = ["full"] }
rand = "0.8"
serde = { version = "1.0", features = ["derive"] }
serde_json = "1.0"
sqlx = { version = "=0.5.13", features = ["runtime-tokio-rustls", "any", "postgres"] }
thiserror = "1.0.69"
tokio = { version = "1", features = ["full"] }
tower-http = { version = "=0.2.5", features = ["cors"] }
tracing = "0.1"
tracing-subscriber = { version = "0.3", features = ["env-filter"] }
validator = { version = "=0.14.0", features = ["derive"] }

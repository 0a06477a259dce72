[package]
name = "upmon"
version = "0.1.0"
edition = "2021"
publish = false

[dependencies]
aide = { version = "=0.15.1", features = ["axum", "axum-json", "axum-query", "axum-tokio", "scalar"] }
axum = "=0.8.9"
chrono = { version = "=0.4.45", features = ["serde"] }
dotenvy = "=0.15.7"
envy = "=0.4.2"
indexmap = "=2.14.2"
reqwest = { version = "=0.13.5", default-features = false }
schemars = "=0.9.0"
serde = { version = "=1.0.229", features = ["derive"] }
serde_json = "=1.0.154"
sqlx = { version = "=0.9.0", default-features = false, features = ["runtime-tokio", "postgres", "chrono"] }
tokio = { version = "=1.54.1", features = ["full"] }
tower-http = { version = "=0.6.11", features = ["fs"] }
tracing = "=0.1.44"
tracing-subscriber = { version = "=0.3.23", features = ["env-filter"] }

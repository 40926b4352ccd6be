[package]
name = "shortty"
version = "0.1.0"
edition = "2021"
publish = false

[dependencies]
axum = "*"
dotenvy = "*"
hex = "*"
serde = { version = "*", features = ["derive"] }
serde_json = "*"
sha2 = "*"
sqlx = { version = "*", default-features = false, features = ["runtime-tokio", "postgres"] }
thiserror = "*"
tokio = { version = "*", features = ["rt-multi-thread", "macros", "net"] }
tracing = "*"
tracing-subscriber = { version = "*", features = ["env-filter"] }
url = "*"

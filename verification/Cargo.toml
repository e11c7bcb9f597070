[package]
name = "ava_admin"
version = "0.1.0"
edition = "2021"
publish = false

[dependencies]
matchit = "*"
mime_guess = "*"
uuid = { version = "*", features = ["v4"] }
serde = { version = "*", features = ["derive"] }
serde_json = "*"
thiserror = "*"
tokio = { version = "*", features = ["rt-multi-thread", "sync", "time", "macros"] }
tracing = "*"
sqlx = { version = "*", default-features = false, features = ["runtime-tokio", "postgres", "macros"] }
casbin = "*"
sqlx-adapter = "*"
redis-watcher = "*"
opendal = { version = "*", features = ["services-s3", "services-fs"] }
strum = { version = "*", features = ["derive"] }
utoipa = "*"
jiff-sqlx = "*"

[package]
name = "yamcrs"
version = "0.1.0"
edition = "2021"
publish = false

[dependencies]
base64 = "*"
actix-web = "*"
clap = { version = "*", features = ["derive", "env"] }
serde = { version = "*", features = ["derive"] }
sqlx = { version = "*", features = ["sqlite", "runtime-tokio"] }
tracing = "*"
tracing-subscriber = "*"

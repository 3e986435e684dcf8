[package]
name = "sqlite_es"
version = "0.1.0"
edition = "2021"
publish = false

[dependencies]
cqrs-es = "=0.4.12"
sqlx = { version = "=0.8.6", default-features = false, features = ["sqlite", "runtime-tokio", "json"] }
async-trait = "=0.1.92"
serde_json = "=1.0.154"

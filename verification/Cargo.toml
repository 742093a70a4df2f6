[package]
name = "document_catalog"
version = "0.1.0"
edition = "2021"
publish = false

[dependencies]
axum = "*"
chrono = "*"
derive-new = "*"
diesel = { version = "*", features = ["sqlite"] }
libsqlite3-sys = { version = "*", features = ["bundled"] }
jsonwebtoken = "*"
serde = { version = "*", features = ["derive"] }
serde_json = "*"
sha-crypt = "*"
time = "*"
tokio = { version = "*", features = ["full"] }
tower = "*"
tower-sessions = "*"

[package]
name = "user_contacts"
version = "0.1.0"
edition = "2021"
publish = false

[dependencies]
uuid = { version = "*", features = ["v4"] }
serde = { version = "*", features = ["derive"] }
axum = "*"
tokio = { version = "*", features = ["macros", "rt-multi-thread", "net"] }
tower-http = { version = "*", features = ["cors"] }
dotenvy = "*"
sea-orm = { version = "*", features = ["sqlx-postgres", "runtime-tokio-rustls", "macros", "with-uuid"] }

[package]
name = "tylerharpool_blog"
version = "0.1.0"
edition = "2021"
publish = false

[dependencies]
chrono = "=0.4.45"
regex = "=1.13.1"
pulldown-cmark = "=0.12.2"
serde = { version = "=1.0.229", features = ["derive"] }
leptos = { version = "=0.7.8", features = ["islands"] }
leptos_meta = "=0.7.8"
leptos_router = "=0.7.8"
sqlx = { version = "0.8", default-features = false, features = ["sqlite", "runtime-tokio"] }

[package]
name = "sentry_slug"
version = "0.1.0"
edition = "2021"
publish = false

[dependencies]
reqwest = { version = "*", default-features = false, features = ["blocking", "rustls-tls"] }
app_dirs = "*"

[dev-dependencies]
serde_json = "*"

[package]
name = "dmarc_explorer"
version = "0.1.0"
edition = "2021"
publish = false

[dependencies]
mailparse = "0.15"
zip = { version = "2", default-features = false, features = ["deflate"] }
flate2 = "1"
anyhow = "1"
askama = "0.12"
async-imap = { version = "0.10", default-features = false, features = ["runtime-tokio"] }
axum = "0.7"
dotenvy = "0.15"
futures = "0.3"
quick-xml = { version = "0.36", features = ["serialize"] }
serde = { version = "1", features = ["derive"] }
sqlx = { version = "0.8", default-features = false, features = ["runtime-tokio", "sqlite", "macros", "migrate"] }
tokio = { version = "1", features = ["full"] }
tokio-rustls = { version = "0.26", default-features = false, features = ["ring", "logging", "tls12"] }
tracing = "0.1"
tracing-subscriber = { version = "0.3", features = ["env-filter"] }
webpki-roots = "0.26"

[package]
name = "librus_sync"
version = "0.1.0"
edition = "2021"
publish = false

[dependencies]
anyhow = "*"
chrono = "*"
dotenvy = "*"
lettre = { version = "*", default-features = false, features = ["builder", "smtp-transport", "tokio1", "tokio1-rustls-tls"] }
librus-rs = "*"
once_cell = "*"
regex = "*"
reqwest = { version = "*", default-features = false, features = ["json", "rustls-tls"] }
rusqlite = { version = "*", features = ["bundled"] }
serde = { version = "*", features = ["derive"] }
serde_json = "*"
tokio = { version = "*", features = ["macros", "rt-multi-thread"] }
tracing = "*"
tracing-subscriber = { version = "*", features = ["env-filter"] }

[package]
name = "otp_auth"
version = "0.1.0"
edition = "2021"
publish = false

[dependencies]
totp-rs = "=6.0.0"
jsonwebtoken = { version = "=11.1.0", features = ["rust_crypto"] }
axum = "*"
tokio = { version = "*", features = ["macros", "rt-multi-thread", "sync", "net", "time"] }
serde = { version = "*", features = ["derive"] }
serde_json = "*"
redis = { version = "*", features = ["tokio-comp"] }
reqwest = { version = "*", default-features = false, features = ["json"] }
chrono = "*"
dotenvy = "*"
lazy_static = "*"
base64 = "*"
lettre = { version = "*", default-features = false, features = ["smtp-transport", "builder", "tokio1", "hostname"] }
url = "*"
sea-orm = { version = "*", default-features = false, features = [] }

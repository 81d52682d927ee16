[package]
name = "ongrow_server"
version = "0.1.0"
edition = "2021"
publish = false

[dependencies]
anyhow = "1"
async-trait = "0.1"
base64 = "0.13"
clap = "2"
deadpool = "0.8"
log = "0.4"
reqwest = { version = "0.11", default-features = false, features = ["json", "rustls-tls"] }
rust-ini = "0.18"
serde_json = "1"
sha2 = "0.10"
sodiumoxide = "0.2"
sqlx = { version = "0.6", default-features = false, features = ["runtime-tokio-rustls", "sqlite"] }
tokio = { version = "1", features = ["net", "rt", "signal", "macros", "time"] }
uuid = { version = "1", features = ["v4"] }

[package]
name = "playlist_aggregator"
version = "0.1.0"
edition = "2021"
publish = false

[dependencies]
anyhow = "1"
futures-util = "0.3"
rspotify = { version = "*", default-features = false, features = ["client-reqwest", "reqwest-rustls-tls", "cli", "env-file"] }
tokio = { version = "1", features = ["macros", "rt-multi-thread"] }

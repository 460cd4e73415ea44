[package]
name = "thingmirror"
version = "0.1.0"
edition = "2021"
publish = false

[dependencies]
anyhow = "*"
clap = { version = "*", features = ["derive"] }
futures = "*"
reqwest = { version = "*", default-features = false, features = ["rustls-tls", "json", "stream"] }
serde = { version = "*", features = ["derive"] }
serde_json = "*"
slug = "*"
tokio = { version = "*", features = ["fs", "io-util", "macros", "rt-multi-thread", "sync"] }
tracing = "*"
tracing-subscriber = "*"

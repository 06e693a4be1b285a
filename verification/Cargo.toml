[package]
name = "discourse_topic_render"
version = "0.1.0"
edition = "2021"
publish = false

[dependencies]
url = "2"
base64 = "0.22"
blake3 = "1"
anyhow = "1"
serde = { version = "1", features = ["derive"] }
serde_json = "1"
clap = { version = "4", features = ["derive"] }
indicatif = "0.17"
kuchiki = "0.8"
reqwest = { version = "0.12", default-features = false }
tokio = { version = "1", features = ["rt", "rt-multi-thread", "sync", "time", "macros"] }

[package]
name = "scrapper"
version = "0.1.0"
edition = "2021"
publish = false

[dependencies]
bincode = "1"
chrono = "0.4"
csv = "1"
indicatif = "0.17"
serde = { version = "1", features = ["derive"] }
serde_json = "1"
sha2 = "0.10"
tokio = { version = "1", features = ["rt-multi-thread", "macros", "sync"] }
ureq = "2"
zip = "0.6"

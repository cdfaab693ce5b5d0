[package]
name = "tokenlens"
version = "0.2.2"
edition = "2021"
publish = false

[dependencies]
regex = "1"
sha2 = "0.10"
chrono = "0.4"
anyhow = "1"
clap = { version = "4", features = ["derive"] }
colored = "2"
dirs = "5"
rusqlite = { version = "0.31", features = ["bundled"] }
serde = { version = "1", features = ["derive"] }
serde_json = "1"
tokio = { version = "1", features = ["rt-multi-thread", "macros", "io-std", "io-util"] }
ureq = { version = "2", features = ["json"] }

[package]
name = "relay_queue"
version = "0.1.0"
edition = "2021"
publish = false

[dependencies]
anyhow = "=1.0.104"
rocket = { version = "=0.5.1", features = ["json"] }
takecell = "=0.1.1"
teloxide = { version = "=0.17.0", default-features = false, features = ["rustls"] }
tokio = { version = "=1.53.2", features = ["rt-multi-thread", "macros", "time", "sync"] }
url = "=2.5.8"

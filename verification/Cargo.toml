[package]
name = "jj-ryu"
version = "0.1.0"
edition = "2021"
publish = false

[dependencies]
anstream = "=1.0.0"
chrono = "=0.4.45"
dialoguer = "=0.12.0"
indicatif = "=0.18.6"
octocrab = "=0.44.1"
reqwest = { version = "=0.13.5", features = ["json", "query"] }
serde = { version = "=1.0.229", features = ["derive"] }
serde_json = "=1.0.154"
tokio = { version = "=1.54.1", features = ["rt"] }
toml = "=1.1.8"
tracing = "=0.1.44"
urlencoding = "=2.1.3"

[package]
name = "alastor"
version = "0.1.0"
edition = "2021"
publish = false

[dependencies]
strsim = "0.11"
chrono = "0.4"
dashmap = "5"
serde = { version = "1", features = ["derive"] }
figment = { version = "0.10", features = ["yaml", "env"] }
reqwest = { version = "0.12", default-features = false, features = ["blocking"] }
url = "2"

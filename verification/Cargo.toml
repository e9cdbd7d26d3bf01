[package]
name = "see"
version = "0.1.0"
edition = "2021"
publish = false

[dependencies]
flate2 = "1"
indicatif = "0.17"
inquire = "0.7"
neon = "1"
reqwest = { version = "0.12", default-features = false, features = ["blocking", "rustls-tls"] }
serde = { version = "1", features = ["derive"] }
serde_json = "1"
tar = "0.4"

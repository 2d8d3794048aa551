[package]
name = "nats_icwt"
version = "0.1.0"
edition = "2021"
publish = false

[dependencies]
rust-crypto = "0.2.36"
bcrypt = "*"
serde_json = "1"
serde = { version = "1", features = ["derive"] }
chrono = "0.4"
reqwest = { version = "*", default-features = false, features = ["blocking", "json"] }

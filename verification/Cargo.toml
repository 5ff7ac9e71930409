[package]
name = "ahap"
version = "0.1.0"
edition = "2021"
publish = false

[dependencies]
chrono = { version = "0.4", default-features = false, features = ["now"] }
serde = "1"
serde_json = { version = "1", features = ["preserve_order", "arbitrary_precision"] }

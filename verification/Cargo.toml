[package]
name = "launchcore"
version = "0.1.0"
edition = "2021"
publish = false

[dependencies]
rust-crypto = "*"
serde = { version = "*", features = ["derive"] }
serde_json = "*"
zip = { version = "*", default-features = false, features = ["deflate"] }
uuid = { version = "*", features = ["v4"] }
dirs = "*"
reqwest = { version = "*", default-features = false, features = ["blocking", "rustls-tls", "json"] }
open = "*"

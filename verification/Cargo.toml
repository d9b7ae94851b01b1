[package]
name = "multipart_decode"
version = "0.1.0"
edition = "2021"
publish = false

[dependencies]
actix-multipart = { version = "*", default-features = false }
actix-web = { version = "*", default-features = false }
futures-util = "*"
serde = { version = "*", features = ["derive"] }
serde_json = "*"

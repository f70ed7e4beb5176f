[package]
name = "northwind_auth"
version = "0.1.0"
edition = "2021"
publish = false

[dependencies]
jsonwebtoken = { version = "=11.1.0", default-features = false, features = ["rust_crypto"] }
sha2 = "=0.10.9"
chrono = "=0.4.45"
uuid = { version = "=1.27.0", features = ["v4"] }
validator = "*"
serde = { version = "=1.0.229", features = ["derive"] }
actix-web = "=4.15.0"

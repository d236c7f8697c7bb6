[package]
name = "rust_api"
version = "0.1.0"
edition = "2021"
publish = false

[dependencies]
regex = "=1.13.1"
uuid = { version = "=1.29.0", features = ["v4", "serde"] }
axum = "=0.8.9"
serde = { version = "=1.0.229", features = ["derive"] }
syn = { version = "=2.0.119", features = ["full"] }
quote = "=1.0.47"
proc-macro2 = "=1.0.107"
frunk = "=0.4.4"

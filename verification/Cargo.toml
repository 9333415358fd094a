[package]
name = "voyager"
version = "0.1.0"
edition = "2021"
publish = false

[dependencies]
base64 = "*"
dashmap = "*"
ulid = "*"
time = "*"
axum = "*"
tokio = { version = "*", features = ["rt-multi-thread", "macros", "net"] }

[package]
name = "servant"
version = "0.1.0"
edition = "2021"
publish = false

[dependencies]
futures = "0.3"
async-std = "1"
serde = { version = "1", features = ["derive"] }
serde_json = "1"
log = "0.4"
rand = "0.8"

[package]
name = "smol_sc"
version = "0.1.0"
edition = "2021"
publish = false

[dependencies]
sha2 = "0.10"
serde = { version = "1", features = ["derive"] }
serde_json = "1"

[package]
name = "veloren"
version = "0.1.0"
edition = "2021"
publish = false

[dependencies]
rand = "0.7"
serde = { version = "1", features = ["derive"] }
specs = "0.16"
vek = "0.12"

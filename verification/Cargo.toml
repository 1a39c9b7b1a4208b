[package]
name = "image_to_ascii"
version = "0.1.0"
edition = "2021"
publish = false

[dependencies]
image = "0.24"
serde_json = "1"
reqwest = { version = "0.11", default-features = false, features = ["blocking", "rustls-tls"] }
rocket = "0.5"
tokio = { version = "1", features = ["macros", "rt-multi-thread"] }
indicatif = "0.17"
env_logger = "0.10"
log = "0.4"

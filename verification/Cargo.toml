[package]
name = "nginx_config_manager"
version = "0.1.0"
edition = "2021"
publish = false

[dependencies]
encoding_rs = "*"
serde = { version = "*", features = ["derive"] }
serde_json = "*"
dirs = "*"

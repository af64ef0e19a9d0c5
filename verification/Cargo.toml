[package]
name = "overfocus"
version = "0.1.0"
edition = "2021"
publish = false

[dependencies]
swayipc = "3"
log = "0.4"
env_logger = "*"
serde = { version = "1", features = ["derive"] }

[package]
name = "pairtrade"
version = "0.1.0"
edition = "2021"
publish = false

[dependencies]
anyhow = "*"
async-trait = "*"
chrono = { version = "*", default-features = false, features = ["clock"] }
env_logger = { version = "*", default-features = false }
log = "*"
rand = "*"
rust_decimal = "*"
serde = { version = "*", features = ["derive"] }
serde_json = "*"
serde_yaml = "*"
tokio = { version = "*", features = ["rt-multi-thread", "macros", "time"] }

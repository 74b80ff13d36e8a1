[package]
name = "httpengine"
version = "0.1.0"
edition = "2021"
publish = false

[dependencies]
argon2 = "=0.6.0"
chrono = "=0.4.45"
jsonwebtoken = { version = "=11.1.0", features = ["rust_crypto"] }
serde = { version = "=1.0.229", features = ["derive"] }
serde_json = "=1.0.151"
serde_yaml = "=0.9.34"
yaml-rust = "=0.4.5"
tokio = { version = "=1.53.2", features = ["rt", "rt-multi-thread", "macros"] }
async-trait = "=0.1.92"
dyn-clone = "=1.0.20"
log = "=0.4.34"
reqwest = { version = "=0.13.5", default-features = false, features = ["json"] }
mysql = { version = "=28.0.3", default-features = false, features = ["minimal-rust", "derive", "buffer-pool"] }

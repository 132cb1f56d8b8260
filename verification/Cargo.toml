[package]
name = "idle_backend"
version = "0.1.0"
edition = "2021"
publish = false

[dependencies]
argon2 = { version = "0.4", features = ["std"] }
base64 = "0.13"
deadpool-postgres = "0.10"
dotenv = "0.15"
log = "0.4"
pretty_env_logger = "0.4"
serde = { version = "1", features = ["derive"] }
thiserror = "1"
tokio = { version = "1", features = ["macros", "rt-multi-thread"] }
tokio-pg-mapper = "0.2"
tokio-pg-mapper-derive = "0.2"
tokio-postgres = "0.7"
warp = "0.3"

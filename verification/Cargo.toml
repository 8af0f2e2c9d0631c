[package]
name = "laplace"
version = "0.1.0"
edition = "2021"
publish = false

[dependencies]
ring = "0.17"
bs58 = "0.5"
http = "1"
cookie = "0.17"
serde = { version = "1", features = ["derive"] }
serde_json = "1"
toml = "0.8"
config = { version = "0.14", default-features = false, features = ["toml"] }
clap = { version = "4", features = ["derive"] }
log = "0.4"
flexi_logger = "0.28"
thiserror = "1"
tokio = { version = "1", features = ["full"] }
axum = "0.7"
tower-http = { version = "0.5", features = ["fs", "compression-gzip", "normalize-path", "set-header"] }
zip = { version = "2", default-features = false, features = ["deflate"] }

[dev-dependencies]
borsh = { version = "1", features = ["derive"] }

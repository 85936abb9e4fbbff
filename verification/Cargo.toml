[package]
name = "sssd_oidc"
version = "0.3.0"
edition = "2021"
publish = false

[dependencies]
base64 = "=0.22.1"
jsonwebtoken = { version = "=10.4.0", default-features = false, features = ["rust_crypto"] }
libc = "=0.2.191"
murmur3 = "=0.5.2"
percent-encoding = "=2.3.2"
rusqlite = { version = "=0.41.1", features = ["bundled", "fallible_uint"] }
serde = { version = "=1.0.229", features = ["derive"] }
serde_json = { version = "=1.0.154", features = ["raw_value"] }
thiserror = "=2.0.21"
tokio = { version = "=1.54.1", features = ["full"] }
toml = "=1.1.8+spec-1.1.0"
tracing = "=0.1.44"
tracing-subscriber = "=0.3.23"
ureq = { version = "=3.5.1", features = ["json"] }
wiremock = "=0.6.5"

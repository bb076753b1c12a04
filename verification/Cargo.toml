[package]
name = "group_session"
version = "0.1.0"
edition = "2021"
publish = false

[dependencies]
openmls = "=0.5.0"
openmls_rust_crypto = "=0.2.0"
openmls_basic_credential = "=0.2.0"
openmls_traits = "=0.2.0"
tls_codec = "=0.3.0"
base64 = "=0.22.1"
serde = "1"
axum = { version = "=0.7.9", features = ["ws", "json"] }
tokio = { version = "1", features = ["rt-multi-thread", "macros", "sync", "net", "time"] }
reqwest = { version = "0.12", default-features = false }

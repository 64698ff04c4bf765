[package]
name = "terminator"
version = "0.1.0"
edition = "2021"
publish = false

[dependencies]
anyhow = "=1.0.104"
argon2 = "=0.5.3"
async-stream = "=0.3.6"
async-trait = "=0.1.92"
axum = "0.7"
base64 = "=0.22.1"
bytes = "=1.12.1"
chacha20poly1305 = "=0.10.1"
futures = "=0.3.34"
keyring = "=3.6.3"
parking_lot = "=0.12.5"
portable-pty = "=0.9.0"
rusqlite = { version = "=0.41.1", features = ["bundled"] }
russh = "=0.65.0"
russh-sftp = "=3.0.1"
serde = { version = "=1.0.229", features = ["derive"] }
serde_json = "=1.0.154"
tokio = { version = "=1.54.1", features = ["full"] }
tracing = "=0.1.44"
tracing-subscriber = { version = "=0.3.23", features = ["env-filter"] }
uuid = { version = "=1.29.0", features = ["v4"] }
vte = "=0.15.0"
zeroize = "=1.9.1"

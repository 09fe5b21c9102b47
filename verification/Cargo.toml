[package]
name = "tee_attest"
version = "0.1.0"
edition = "2021"
publish = false

[dependencies]
ed25519-dalek = "=2.2.0"
hex = "=0.4.3"
rand_core = { version = "=0.6.4", features = ["getrandom"] }
regex = "=1.11.3"
sha2 = "=0.10.9"
anyhow = "1"
axum = "=0.6.20"
image = "=0.24.9"
ndarray = "=0.17.2"
once_cell = "1"
ort = { version = "=2.0.0-rc.13", default-features = false, features = ["ndarray", "std"] }
reqwest = { version = "=0.11.27", default-features = false, features = ["json", "rustls-tls"] }
serde = { version = "1", features = ["derive"] }
serde_json = "1"
tokio = { version = "1", features = ["full"] }
uuid = { version = "1", features = ["v4"] }
walkdir = "2"

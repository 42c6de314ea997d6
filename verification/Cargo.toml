[package]
name = "pqvpn"
version = "0.1.0"
edition = "2021"
publish = false

[dependencies]
anyhow = "=1.0.104"
axum = { version = "=0.8.9", features = ["ws"] }
chacha20poly1305 = "=0.11.0"
clap = { version = "=4.6.7", features = ["derive"] }
getrandom = "=0.4.3"
hkdf = "=0.13.0"
ml-kem = { version = "=0.3.4", features = ["getrandom", "zeroize"] }
serde = { version = "=1.0.229", features = ["derive"] }
serde_json = "=1.0.154"
sha2 = "=0.11.1"
tokio = { version = "=1.54.1", features = ["full"] }
tower-http = { version = "=0.7.1", features = ["fs"] }
tun-rs = { version = "=2.8.16", features = ["async"] }
x25519-dalek = { version = "=3.0.0", features = ["static_secrets", "reusable_secrets", "getrandom", "zeroize"] }
zeroize = "=1.9.1"

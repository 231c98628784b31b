[package]
name = "hyperion-vpn"
version = "0.1.0"
edition = "2021"
publish = false

[dependencies]
anyhow = "1"
argon2 = "0.5"
base64 = "0.22"
chacha20poly1305 = "0.10"
clap = { version = "4", features = ["derive"] }
getrandom = "0.3"
ipstack = "*"
libc = "0.2"
noise-protocol = "0.2"
noise-rust-crypto = "0.6"
rpassword = "7"
serde = { version = "1", features = ["derive"] }
socket2 = { version = "0.6", features = ["all"] }
thiserror = "2"
tokio = { version = "1", features = ["full"] }
tokio-util = { version = "0.7", features = ["compat"] }
toml = "0.9"
tracing = "0.1"
tracing-subscriber = { version = "0.3", features = ["env-filter"] }
tun-rs = { version = "2", features = ["async"] }
yamux = "0.13"
zeroize = "1"

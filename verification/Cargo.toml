[package]
name = "cantrip"
version = "0.1.0"
edition = "2021"
publish = false

[dependencies]
anyhow = "1"
argon2 = "0.5"
base64 = "0.22"
blake3 = "1"
chacha20poly1305 = "0.10"
clap = { version = "4", features = ["derive"] }
dialoguer = { version = "0.12", default-features = false, features = ["password"] }
futures-lite = "2"
keyring = "3"
rand = "0.9"
ratatui = { version = "0.29", default-features = false, features = ["crossterm"] }
tokio = { version = "1", features = ["macros", "rt-multi-thread", "signal", "sync", "time"] }
tui-input = "0.14"

[dev-dependencies]
postcard = { version = "1", features = ["use-std"] }
regex = "1"
serde_json = "1"

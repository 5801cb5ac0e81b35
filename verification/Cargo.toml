[package]
name = "crosscrypt"
version = "0.1.0"
edition = "2021"
publish = false

[dependencies]
aes = "=0.8.4"
argon2 = "=0.5.3"
chacha20poly1305 = "=0.10.1"
rand = "=0.8.8"
rayon = "=1.12.0"
tokio = { version = "=1.54.1", features = ["full"] }
clap = { version = "=4.6.7", features = ["derive"] }
anyhow = "=1.0.104"
thiserror = "=1.0.69"
serde = { version = "=1.0.229", features = ["derive"] }
bincode = "=1.3.3"
rpassword = "=7.5.4"
tracing = "=0.1.44"
tracing-subscriber = "=0.3.23"
uuid = { version = "=1.29.0", features = ["v4"] }
async-trait = "=0.1.92"
dialoguer = { version = "0.11", default-features = false, features = ["password"] }

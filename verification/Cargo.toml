[package]
name = "tunnet"
version = "0.1.0"
edition = "2021"
publish = false

[dependencies]
etherparse = "=0.21.0"
hex = "=0.4.3"
sha2 = "=0.11.1"
hmac = "=0.13.0"
base64 = "=0.23.1"
aes-gcm = "=0.11.1"
ipnet = "=2.12.2"
anyhow = "=1.0.104"
serde = { version = "=1.0.229", features = ["derive"] }
serde_json = "=1.0.154"
clap = { version = "=4.6.7", features = ["derive", "env"] }
jiff = "=0.2.39"

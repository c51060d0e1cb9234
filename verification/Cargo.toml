[package]
name = "boobytrap"
version = "0.1.0"
edition = "2021"
publish = false

[dependencies]
anyhow = "=1.0.104"
blake3 = "=1.8.7"
chrono = "=0.4.45"
config = "=0.14.1"
discord-webhook-lib = "=0.1.7"
filesystem-hashing = "=0.3.4"
httping = "=0.1.9"
netstat = "=0.6.2"
tokio = { version = "=1.54.1", features = ["full"] }
walkdir = "=2.5.0"
whoami = "=1.6.1"

[package]
name = "website"
version = "0.1.0"
edition = "2021"
publish = false

[dependencies]
chrono = "=0.4.45"
chrono-tz = "=0.10.4"
argon2 = "=0.6.0"
blake3 = { version = "=1.8.7", features = ["pure"] }
imagesize = "=0.15.0"
anyhow = "=1.0.104"
httpdate = "*"
rouille = { version = "*", default-features = false }
serde = { version = "*", features = ["derive"] }
serde_json = "*"

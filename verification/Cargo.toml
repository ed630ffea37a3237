[package]
name = "walltaker"
version = "0.1.0"
edition = "2021"
publish = false

[dependencies]
serde = { version = "=1.0.229", features = ["derive"] }
serde_json = "=1.0.151"
tungstenite = { version = "=0.30.0", features = ["native-tls"] }
ureq = "=3.4.2"
wallpaper = "=3.2.0"
directories = "=6.0.0"
anyhow = "=1.0.104"

[package]
name = "shellkeeper"
version = "0.1.3"
edition = "2021"
publish = false

[dependencies]
anyhow = "=1.0.104"
arboard = { version = "3", default-features = false }
chrono = { version = "0.4", features = ["serde"] }
dirs = "5"
egui = "0.29"
image = { version = "0.25", default-features = false, features = ["png"] }
keyring = "3"
portable-pty = "0.8"
serde = { version = "1", features = ["derive"] }
serde_json = "1"
shellexpand = "3"
uuid = { version = "1", features = ["v4", "serde"] }
vt100 = "0.15"

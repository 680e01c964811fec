[package]
name = "my_finances"
version = "0.1.0"
edition = "2021"
publish = false

[dependencies]
chrono = "=0.4.45"
dirs-next = "=2.0.0"
dotenvy = "=0.15.7"
flate2 = "=1.1.10"
keyring = "=4.2.0"
keyring-core = "=1.0.1"
notify = "=8.2.1"
reqwest = { version = "=0.12.28", default-features = false, features = ["json", "rustls-tls"] }
rusqlite = { version = "=0.39.0", features = ["bundled"] }
serde = { version = "=1.0.229", features = ["derive"] }
serde_json = "=1.0.154"
tokio = { version = "=1.54.1", features = ["time"] }
uuid = { version = "=1.29.0", features = ["v4"] }

[package]
name = "rusty_gate"
version = "0.1.0"
edition = "2021"
publish = false

[dependencies]
serde = { version = "=1.0.229", features = ["derive"] }
serde_json = "=1.0.151"
tokio = { version = "=1.53.2", features = ["macros", "rt-multi-thread"] }
reqwest = { version = "=0.11.27", default-features = false, features = ["json", "rustls-tls"] }
futures = "=0.3.34"
actix-web = "=4.15.0"

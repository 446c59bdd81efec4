[package]
name = "reseda_server"
version = "0.1.0"
edition = "2021"
publish = false

[dependencies]
chrono = "=0.4.45"
uuid = { version = "=1.27.0", features = ["v4"] }
serde = { version = "=1.0.229", features = ["derive"] }
serde_json = "=1.0.151"
tokio = { version = "=1.53.2", features = ["full"] }
tokio-stream = "=0.1.19"
futures = "=0.3.34"
futures-timer = "=3.0.4"
warp = { version = "=0.3.7", features = ["tls"] }
reqwest = { version = "=0.13.5", features = ["json"] }
sqlx = { version = "=0.9.0", features = ["mysql", "runtime-tokio"] }
config = "=0.15.27"
public-ip = "=0.2.2"

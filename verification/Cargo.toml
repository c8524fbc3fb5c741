[package]
name = "realtime_service"
version = "0.1.0"
edition = "2021"
publish = false

[dependencies]
jsonwebtoken = { version = "=11.1.0", features = ["rust_crypto"] }
rand = "=0.10.3"
uuid = { version = "=1.27.0", features = ["v4", "serde"] }
serde = { version = "=1.0.229", features = ["derive"] }
serde_json = "=1.0.151"
tokio = { version = "=1.53.2", features = ["rt-multi-thread", "macros", "sync", "time"] }
actix-web = "=4.15.0"
actix-ws = "=0.4.0"
async-nats = "=0.50.0"
futures = "=0.3.34"
futures-util = "=0.3.34"
dotenvy = "=0.15.7"
prometheus = "=0.14.0"
lazy_static = "=1.5.1"

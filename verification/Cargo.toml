[package]
name = "throttle_bridge"
version = "0.1.0"
edition = "2021"
publish = false

[dependencies]
tokio = { version = "=1.53.2", features = ["full"] }
warp = { version = "=0.4.3", features = ["server", "websocket"] }
futures-util = "=0.3.34"
log = "=0.4.34"
pretty_env_logger = "=0.5.0"
toml = "=1.1.7"
uuid = { version = "=1.27.0", features = ["v4"] }

[dev-dependencies]
serde_json = "=1.0.151"

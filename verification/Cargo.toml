[package]
name = "aero-sensor-broker"
version = "0.1.0"
edition = "2021"
publish = false

[dependencies]
chrono = "0.4"
config = { version = "*", default-features = false, features = ["toml"] }
env_logger = "*"
futures = "0.3"
influxdb2 = { version = "*", default-features = false, features = ["rustls"] }
log = "0.4"
serde = { version = "1", features = ["derive"] }
serde_json = "1"
serialport = { version = "4", default-features = false }
tokio = { version = "1", features = ["macros", "rt-multi-thread", "sync", "time"] }
warp = "0.3"

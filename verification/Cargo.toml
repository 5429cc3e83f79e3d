[package]
name = "mqtt_recorder_rs"
version = "0.1.0"
edition = "2021"
publish = false

[dependencies]
base64 = "0.13"
chrono = "0.4"
log = "0.4"
rumqttc = "*"
serde = { version = "1", features = ["derive"] }
serde_json = "1"
simple_logger = "*"
structopt = "0.3"
tokio = { version = "1", features = ["rt-multi-thread", "time"] }

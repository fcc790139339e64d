[package]
name = "ble_medium"
version = "0.1.0"
edition = "2021"
publish = false

[dependencies]
sha2 = "0.10"
rand = "0.9"
uuid = "1"
anyhow = "1"
bluer = { version = "0.17", features = ["bluetoothd", "l2cap"] }
futures = "0.3"
hex = "0.4"
log = "0.4"
tokio = { version = "1", features = ["full"] }
tokio-util = "0.7"
tracing-subscriber = "0.3"

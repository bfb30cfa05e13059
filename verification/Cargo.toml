[package]
name = "my-signalr-middleware"
version = "0.1.0"
edition = "2021"
publish = false

[dependencies]
async-trait = "=0.1.92"
hyper = "=0.14.32"
hyper-tungstenite = "=0.11.1"
tokio = { version = "=1.54.1", features = ["full"] }
uuid = { version = "=1.29.0", features = ["v4"] }

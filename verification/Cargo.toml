[package]
name = "proxy-protocol"
version = "0.1.0"
edition = "2021"
publish = false

[dependencies]
http = "0.2"
ppp = "2"
pin-project-lite = "0.2"
tokio = { version = "1", default-features = false, features = ["io-util", "time"] }
tower-service = "0.3"

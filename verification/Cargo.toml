[package]
name = "lobby_core"
version = "0.1.0"
edition = "2021"
publish = false

[dependencies]
uuid = { version = "*", features = ["v4"] }
rand = "*"
futures-channel = "*"
futures-util = "*"
tungstenite = { version = "*", default-features = false }
tokio-tungstenite = "*"
tokio = { version = "*", features = ["rt-multi-thread", "macros", "net"] }
reqwest = { version = "*", default-features = false }
dotenv = "*"
lazy_static = "*"

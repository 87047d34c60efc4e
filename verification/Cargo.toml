[package]
name = "rustbits"
version = "0.1.0"
edition = "2021"
publish = false

[dependencies]
rand = "0.8"
uuid = { version = "1", features = ["v4"] }
serde = { version = "1", features = ["derive"] }
serde_json = "1"
tokio = { version = "1", features = ["full"] }
tokio-tungstenite = "0.26"
tungstenite = "0.26"
futures-util = { version = "0.3", features = ["sink"] }
tracing = "0.1"
tracing-subscriber = "0.3"
borsh = { version = "1", features = ["derive"] }
solana-program = "*"
wasm-bindgen = "0.2"
js-sys = "0.3"
web-sys = { version = "0.3", features = ["WebSocket", "MessageEvent", "ErrorEvent", "console"] }
mediasoup = "*"

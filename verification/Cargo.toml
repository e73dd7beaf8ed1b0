[package]
name = "tlsn_disclosure"
version = "0.1.0"
edition = "2021"
publish = false

[dependencies]
rangeset = "=0.2.0"
regex = "=1.13.1"
http = "=1.5.0"
url = "=2.5.8"
uuid = { version = "=1.29.0", features = ["v4"] }
hyper = { version = "=1.12.0", features = ["client", "http1"] }
hyper-util = { version = "=0.1.21", features = ["tokio"] }
http-body-util = "=0.1.5"
tokio = { version = "=1.54.1", features = ["rt-multi-thread", "macros", "net", "io-util"] }
tokio-util = { version = "=0.7.20", features = ["compat", "io"] }
async-tungstenite = { version = "=0.29.1", features = ["tokio-runtime"] }
ws_stream_tungstenite = { version = "=0.15.0", features = ["tokio_io"] }
eyre = "=0.6.14"
tracing = "=0.1.44"
tracing-subscriber = { version = "=0.3.23", features = ["env-filter"] }
wstcp = "=0.2.1"
async-std = "=1.13.2"
slog = "=2.8.2"
axum = { version = "=0.8.9", features = ["ws"] }
futures = "=0.3.34"
anyhow = "=1.0.104"
serde = { version = "=1.0.229", features = ["derive"] }
serde_json = "=1.0.154"
wasm-bindgen = "=0.2.129"
wasm-bindgen-futures = "=0.4.79"
serde-wasm-bindgen = "=0.6.5"
gloo-net = "=0.7.0"
ws_stream_wasm = "=0.7.5"
web-sys = { version = "=0.3.106", features = ["RequestMode"] }
p256 = { version = "=0.13.2", features = ["pem"] }

[package]
name = "longrunner"
version = "0.1.0"
edition = "2021"
publish = false

[dependencies]
uuid = { version = "=1.29.0", features = ["v4", "serde"] }
tokio = { version = "=1.54.1", features = ["sync", "rt", "time"] }
serde = { version = "=1.0.229", features = ["derive"] }
yew = { version = "=0.21.0", features = ["csr"] }
wasm-bindgen = "=0.2.129"
wasm-bindgen-futures = "=0.4.79"
js-sys = "=0.3.106"
gloo-timers = "=0.3.0"
serde-wasm-bindgen = "=0.6.5"
tracing = "=0.1.44"
tracing-subscriber = "=0.3.23"
tracing-web = "=0.1.3"

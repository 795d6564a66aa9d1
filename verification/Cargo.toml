[package]
name = "web_libusb"
version = "0.1.0"
edition = "2021"
publish = false

[dependencies]
console_error_panic_hook = "=0.1.7"
js-sys = "=0.3.106"
rmp-serde = "=1.3.1"
serde = { version = "=1.0.229", features = ["derive"] }
serde-wasm-bindgen = "=0.6.5"
serde_bytes = "=0.11.19"
wasm-bindgen = "=0.2.129"
web-sys = { version = "=0.3.106", features = ["DedicatedWorkerGlobalScope", "console"] }

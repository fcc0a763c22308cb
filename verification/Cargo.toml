[package]
name = "session_sharer"
version = "0.1.0"
edition = "2021"
publish = false

[dependencies]
console_log = "*"
gloo-events = "*"
gloo-timers = "*"
gloo-utils = "*"
log = "*"
thiserror = "*"
wasm-bindgen = "*"
web-sys = { version = "*", features = ["BroadcastChannel", "MessageEvent", "Window"] }
yew = { version = "*", features = ["csr"] }
yew-router = "*"

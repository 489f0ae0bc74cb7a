[package]
name = "sos_game"
version = "0.1.0"
edition = "2021"
publish = false

[dependencies]
rand = "0.8"
yew = { version = "0.21", features = ["csr"] }
gloo = "0.11"
gloo-timers = { version = "0.3", features = ["futures"] }
wasm-bindgen = "0.2"
wasm-bindgen-futures = "0.4"

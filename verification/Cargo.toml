[package]
name = "squiggle_mc"
version = "0.1.0"
edition = "2021"
publish = false

[dependencies]
rand = "=0.8.8"
statistics = "=0.4.1"
wasm-bindgen = "=0.2.129"
js-sys = "=0.3.106"
serde = { version = "=1.0.229", features = ["derive"] }
console_error_panic_hook = "=0.1.7"

[package]
name = "dollcode"
version = "0.1.0"
edition = "2021"
publish = false

[dependencies]
wasm-bindgen = "*"
console_error_panic_hook = "*"
heapless = "*"
owo-colors = "*"

[package]
name = "canvas_vm"
version = "0.1.0"
edition = "2021"
publish = false

[dependencies]
wasm-encoder = "*"
wasm-bindgen = "*"
serde = { version = "*", features = ["derive"] }
serde-wasm-bindgen = "*"
console_error_panic_hook = "*"

[dev-dependencies]
wasmparser = "*"

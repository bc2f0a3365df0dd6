[package]
name = "img2ico"
version = "0.1.0"
edition = "2021"
publish = false

[dependencies]
image = "*"
wasm-bindgen = "*"
console_error_panic_hook = "*"

[package]
name = "rs_wasm_encoders"
version = "0.1.0"
edition = "2021"
publish = false

[dependencies]
bytes = "=1.12.1"
wasm-bindgen = "=0.2.92"

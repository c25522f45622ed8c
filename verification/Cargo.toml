[package]
name = "wasmlink"
version = "0.1.0"
edition = "2021"
publish = false

[dependencies]
anyhow = "1"
wasm-encoder = "0.4"
wasmparser = "0.78"

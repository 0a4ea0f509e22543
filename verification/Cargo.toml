[package]
name = "ryggattack"
version = "0.1.0"
edition = "2021"
publish = false

[dependencies]
web-time = "=1.1.0"
js-sys = "=0.3.107"
wasm-bindgen = "=0.2.130"

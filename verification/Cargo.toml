[package]
name = "diesel_d1"
version = "0.1.0"
edition = "2021"
publish = false

[dependencies]
async-trait = "*"
diesel = "*"
diesel-async = "*"
futures-util = "*"
js-sys = "*"
wasm-bindgen = "*"
wasm-bindgen-futures = "*"
worker = "*"

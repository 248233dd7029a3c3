[package]
name = "game_of_rife"
version = "0.1.0"
edition = "2021"
publish = false

[dependencies]
im = "15"
wasm-bindgen = "0.2"

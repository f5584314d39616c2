[package]
name = "card_game_ai"
version = "0.1.0"
edition = "2021"
publish = false

[dependencies]
rand = "0.8"
itertools = "0.12"
colored = "2"
wasm-bindgen = "0.2"

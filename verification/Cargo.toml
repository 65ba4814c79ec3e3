[package]
name = "screeps_ai"
version = "0.1.0"
edition = "2021"
publish = false

[dependencies]
screeps-game-api = "*"
serde = { version = "1", features = ["derive"] }
serde_json = "1"
anyhow = "1"
wasm-bindgen = "*"
js-sys = "*"
console_error_panic_hook = "*"
tracing = "*"
tracing-wasm = "*"
gloo-utils = { version = "*", features = ["serde"] }
log = "*"

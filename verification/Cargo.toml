[package]
name = "search"
version = "0.7.2"
edition = "2021"
publish = false

[dependencies]
serde = { version = "1", features = ["derive"] }
serde_json = "1"
rmp-serde = "*"
thiserror = "1"
num-format = "0.4"
wasm-bindgen = "0.2"
console_error_panic_hook = "0.1"

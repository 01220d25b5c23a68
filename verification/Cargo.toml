[package]
name = "wgui-ttf"
version = "0.1.0"
edition = "2021"
publish = false

[dependencies]
ttf-parser = "*"
wasm-bindgen = "*"
js-sys = "*"
console_error_panic_hook = "*"

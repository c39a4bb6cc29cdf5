[package]
name = "wasm-paths"
version = "0.1.0"
edition = "2021"
publish = false

[dependencies]
icu = "1.5"
icu_properties = { version = "1.5", features = ["bidi"] }
rustybuzz = "*"
unicode-bidi = "0.3"
wasm-bindgen = "0.2"
web-sys = { version = "0.3", features = ["console"] }

[package]
name = "demoparser"
version = "0.1.0"
edition = "2021"
publish = false

[dependencies]
protobuf = "3"
ahash = "0.8"
serde = { version = "1", features = ["derive"] }
serde_json = "1"
serde-wasm-bindgen = "0.6"
wasm-bindgen = "0.2"
web-sys = { version = "0.3", features = ["File", "console"] }
wasm-bindgen-file-reader = "*"
napi = "2"
napi-derive = "2"
memmap2 = "0.9"
rayon = "1"

[package]
name = "wasm_guardian"
version = "0.1.0"
edition = "2021"
publish = false

[dependencies]
anyhow = "=1.0.104"
flate2 = "=1.1.10"
id-arena = "=2.3.0"
rapier2d = "=0.22.0"
walrus = "=0.20.3"
xxhash-rust = { version = "=0.8.19", features = ["xxh3"] }

[dev-dependencies]
wasmi = "=2.0.0"
wasmparser = "=0.262.0"
wat = "=1.262.0"

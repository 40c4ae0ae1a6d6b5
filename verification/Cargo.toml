[package]
name = "wasi_replay"
version = "0.1.0"
edition = "2021"
publish = false

[dependencies]
anyhow = "=1.0.104"
rand = "=0.10.3"
wasmtime = "=47.0.3"
wasmtime-wasi = "=47.0.3"
wit-parser = "=0.256.0"

[dev-dependencies]
wat = "=1.263.0"

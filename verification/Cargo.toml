[package]
name = "competitive_net_sim"
version = "0.1.0"
edition = "2021"
publish = false

[dependencies]
clap = { version = "4", features = ["derive"] }
postcard = { version = "1", default-features = false, features = ["alloc"] }
serde = { version = "1", features = ["derive"] }
serde-wasm-bindgen = "0.6"
toml = "0.8"
wasm-bindgen = "0.2"
wasmtime = { version = "45", default-features = false, features = ["cranelift", "runtime", "wat", "std"] }

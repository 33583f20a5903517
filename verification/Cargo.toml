[package]
name = "hsml"
version = "0.1.0"
edition = "2021"
publish = false

[dependencies]
clap = "=4.6.7"
tokio = { version = "=1.54.1", features = ["rt-multi-thread", "io-std"] }
tower-lsp = "=0.20.0"
wasm-bindgen = "=0.2.129"

[dev-dependencies]
nom = "=8.0.0"

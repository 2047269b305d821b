[package]
name = "traefik_authz_wasm"
version = "0.1.0"
edition = "2021"
publish = false

[dependencies]
regex = "1"
serde = { version = "1", features = ["derive"] }
serde_json = "1"
wasm-bindgen = "0.2"
http-wasm-guest = "0.7"

[package]
name = "sealed_auction"
version = "0.1.0"
edition = "2021"
publish = false

[dependencies]
curve25519-dalek = { version = "=4.1.3", features = ["digest"] }
sha2 = "=0.10.9"
hex = "=0.4.3"
rand = "=0.8.8"
serde_json = "=1.0.154"
libp2p = { version = "=0.56.0", default-features = false, features = ["ed25519", "gossipsub", "identify", "macros", "quic", "tokio"] }
wasm-bindgen = "=0.2.130"
wasm-bindgen-futures = "=0.4.80"
gloo-timers = { version = "=0.4.0", features = ["futures"] }
console_error_panic_hook = "=0.1.7"
tokio = { version = "1", features = ["full"] }
warp = { version = "0.3", default-features = false }
futures = "0.3"
bytes = "1"
plotters = { version = "0.3", default-features = false, features = ["bitmap_backend", "bitmap_encoder", "ttf", "all_series", "all_elements"] }

[package]
name = "multiplayer_web"
version = "0.1.0"
edition = "2021"
publish = false

[dependencies]
actix = "=0.13.5"
actix-web = { version = "=4.18.1", default-features = false, features = ["macros", "ws"] }
actix-web-actors = "=4.3.1"
js-sys = "=0.3.106"
rand = "=0.8.8"
wasm-bindgen = "=0.2.129"
web-sys = { version = "=0.3.106", features = ["BinaryType", "ErrorEvent", "MessageEvent", "WebSocket"] }

[dev-dependencies]
bincode = "=1.3.3"
serde = "=1.0.229"

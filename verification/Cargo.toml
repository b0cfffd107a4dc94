[package]
name = "evosim"
version = "0.1.0"
edition = "2021"
publish = false

[dependencies]
rand = "0.8"
rand_chacha = "0.3"
nalgebra = { version = "0.32", features = ["rand"] }
yew = "0.19"
gloo = "0.4"
wasm-bindgen = "0.2"
web-sys = { version = "0.3", features = ["CanvasRenderingContext2d", "HtmlCanvasElement", "Window"] }

[dev-dependencies]
approx = "0.5"

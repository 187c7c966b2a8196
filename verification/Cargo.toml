[package]
name = "doppler_color_shift"
version = "0.1.0"
edition = "2021"
publish = false

[dependencies]
image = { version = "*", default-features = false, features = ["jpeg"] }
nalgebra = "*"
wasm-bindgen = "*"
web-sys = { version = "*", features = ["CanvasRenderingContext2d", "HtmlCanvasElement", "ImageData"] }

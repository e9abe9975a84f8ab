[package]
name = "mt_plotters"
version = "0.1.0"
edition = "2021"
publish = false

[dependencies]
wasm-bindgen = "0.2"
wasm-bindgen-futures = "0.4"
js-sys = "0.3"
web-sys = { version = "0.3", features = ["HtmlCanvasElement", "CanvasRenderingContext2d", "ImageData", "Window", "Performance"] }
wasm-mt = "*"
wee_alloc = "0.4"
plotters = { version = "0.2", default-features = false, features = ["line_series"] }

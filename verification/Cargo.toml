[package]
name = "snake_game"
version = "0.1.0"
edition = "2021"
publish = false

[dependencies]
csscolorparser = "*"
rand = "0.9"
wasm-bindgen = "*"
js-sys = "*"
web-sys = { version = "*", features = ["Window", "Document", "Element", "EventTarget", "HtmlCanvasElement", "KeyboardEvent", "WebGl2RenderingContext", "WebGlBuffer", "WebGlProgram", "WebGlShader"] }
serde = { version = "*", features = ["derive"] }
serde-wasm-bindgen = "*"
log = "*"
console_log = "*"
console_error_panic_hook = "*"

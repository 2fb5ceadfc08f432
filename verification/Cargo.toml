[package]
name = "opv_schaltungen"
version = "0.1.0"
edition = "2021"
publish = false

[dependencies]
leptos = { version = "0.8", features = ["csr"] }
leptos_router = "0.8"
plotters = "0.3"
plotters-canvas = "0.3"
wasm-bindgen = "0.2"
web-sys = { version = "0.3", features = ["HtmlCanvasElement", "HtmlInputElement", "console"] }

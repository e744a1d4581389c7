[package]
name = "miso_lmp"
version = "0.1.0"
edition = "2021"
publish = false

[dependencies]
leptos = { version = "0.6", features = ["csr"] }
wasm-bindgen = "0.2"
js-sys = "0.3"
web-sys = { version = "0.3", features = ["Window", "Event", "EventTarget", "HtmlCanvasElement", "CanvasRenderingContext2d", "TextMetrics", "IdbFactory", "IdbDatabase", "IdbKeyRange", "IdbObjectStore", "IdbOpenDbRequest", "IdbRequest", "IdbTransaction", "IdbTransactionMode", "DomStringList"] }
gloo-net = { version = "0.5", features = ["http", "json"] }
gloo-timers = { version = "0.3", features = ["futures"] }
serde = { version = "1", features = ["derive"] }
serde-wasm-bindgen = "0.6"
futures = "0.3"
console_error_panic_hook = "0.1"

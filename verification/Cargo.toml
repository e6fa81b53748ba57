[package]
name = "webgpu_worker"
version = "0.1.0"
edition = "2021"
publish = false

[dependencies]
console_error_panic_hook = "0.1"
js-sys = "0.3"
leptos = { version = "0.8", features = ["csr"] }
serde = { version = "1", features = ["derive"] }
serde-wasm-bindgen = "0.6"
wasm-bindgen = "0.2"
wasm-bindgen-futures = "0.4"
web-sys = { version = "0.3", features = ["DedicatedWorkerGlobalScope", "DomRect", "Element", "Event", "EventTarget", "HtmlCanvasElement", "HtmlInputElement", "MessageEvent", "MouseEvent", "OffscreenCanvas", "Performance", "PointerEvent", "ResizeObserver", "WheelEvent", "Window", "Worker", "WorkerGlobalScope", "WorkerOptions", "WorkerType"] }

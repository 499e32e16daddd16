[package]
name = "face_tracker"
version = "0.1.0"
edition = "2021"
publish = false

[dependencies]
rustface = "*"
wasm-bindgen = "0.2"
js-sys = "0.3"
wasm-bindgen-futures = "0.4"
reqwest = { version = "0.12", default-features = false }
bytes = "1"
thiserror = "1"
web-sys = { version = "0.3", features = [
    "CanvasRenderingContext2d",
    "CssStyleDeclaration",
    "Document",
    "Element",
    "HtmlCanvasElement",
    "HtmlElement",
    "HtmlImageElement",
    "HtmlVideoElement",
    "ImageData",
    "MediaDevices",
    "MediaStream",
    "MediaStreamConstraints",
    "Navigator",
    "Node",
    "Performance",
    "Window",
] }

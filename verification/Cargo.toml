[package]
name = "arbor"
version = "0.1.0"
edition = "2021"
publish = false

[dependencies]
wasm-bindgen = "0.2"
js-sys = "0.3"
wasm-bindgen-futures = "0.4"
url = "2"
console_error_panic_hook = "0.1"
log = "0.4"

[dependencies.web-sys]
version = "0.3"
features = [
    "Window",
    "Document",
    "Element",
    "HtmlElement",
    "HtmlDivElement",
    "HtmlAnchorElement",
    "Node",
    "NodeList",
    "Text",
    "CharacterData",
    "Event",
    "EventTarget",
    "Location",
    "History",
]

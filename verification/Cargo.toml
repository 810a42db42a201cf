[package]
name = "pcplayerpicker"
version = "0.1.0"
edition = "2021"
publish = false

[dependencies]
base64 = "=0.22.1"
sha2 = "=0.10.9"
getrandom = { version = "=0.2.17", features = ["js"] }
serde = { version = "=1.0.229", features = ["derive"] }
serde_json = "=1.0.154"
js-sys = "=0.3.107"
wasm-bindgen = "=0.2.130"
wasm-bindgen-futures = "=0.4.80"
web-sys = { version = "=0.3.107", features = ["Window", "Storage", "Location", "Navigator", "Clipboard", "Document", "Element", "DomTokenList", "MediaQueryList", "Headers", "Request", "RequestInit", "RequestMode", "Response", "Url"] }
worker = "=0.8.7"
qrcode = { version = "0.14", default-features = false, features = ["svg"] }

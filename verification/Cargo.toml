[package]
name = "item_store"
version = "0.1.0"
edition = "2021"
publish = false

[dependencies]
log = "0.4"
serde = { version = "1", features = ["derive"] }
serde_json = "1"
wasm-logger = "0.2"
web-sys = { version = "0.3", features = ["HtmlInputElement", "Storage", "Window"] }
yew = { version = "0.20", features = ["csr"] }

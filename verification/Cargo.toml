[package]
name = "liteparse"
version = "0.1.0"
edition = "2021"
publish = false

[dependencies]
pdfium-sys = { version = "=0.1.1", default-features = false }

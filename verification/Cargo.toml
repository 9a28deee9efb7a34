[package]
name = "pidf"
version = "0.1.0"
edition = "2021"
publish = false

[dependencies]
serde = { version = "1", features = ["derive"] }
image = { version = "0.25", default-features = false, features = ["jpeg"] }
pdfium-render = "=0.8.37"
tauri = { version = "2", default-features = false }

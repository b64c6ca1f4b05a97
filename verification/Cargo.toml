[package]
name = "hawellha"
version = "0.1.0"
edition = "2021"
publish = false

[dependencies]
calamine = "=0.38.0"
csv = "=1.4.0"
dirs = "=7.0.0"
flate2 = "=1.1.10"
image = { version = "=0.25.10", default-features = false, features = ["png", "jpeg", "webp", "bmp", "tiff", "gif"] }
mime_guess = "=2.0.5"
notify-rust = "=4.18.2"
open = "=5.4.5"
pdf-extract = "=0.12.1"
printpdf = { version = "=0.8.2", default-features = false }
rust_xlsxwriter = "=0.102.0"
serde = { version = "=1.0.229", features = ["derive"] }
serde_json = { version = "=1.0.154", features = ["preserve_order"] }
tar = "=0.4.46"
tokio = { version = "=1.54.1", features = ["rt-multi-thread"] }
zip = { version = "=9.2.2", default-features = false, features = ["deflate"] }

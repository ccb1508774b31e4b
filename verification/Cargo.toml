[package]
name = "http_codec"
version = "0.1.0"
edition = "2021"
publish = false

[dependencies]
brotli = { version = "=9.0.0", features = ["portable-float"] }
chrono = "=0.4.45"
flate2 = "=1.1.10"
urlencoding = "=2.1.3"

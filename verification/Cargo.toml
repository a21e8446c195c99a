[package]
name = "rustrest"
version = "0.1.0"
edition = "2021"
publish = false

[dependencies]
base64 = "=0.22.1"
brotli = { version = "=9.1.1", features = ["portable-float"] }
flate2 = "=1.1.10"
futures-util = "=0.3.34"
hmac = "=0.12.1"
http-body-util = "=0.1.5"
httpdate = "=1.0.3"
hyper = { version = "=1.12.0", features = ["full"] }
hyper-util = { version = "=0.1.21", features = ["full"] }
rustls-pemfile = "=2.2.0"
serde = { version = "=1.0.229", features = ["derive"] }
serde_html_form = "=0.2.8"
serde_json = "=1.0.154"
serde_urlencoded = "=0.7.1"
sha1 = "=0.10.7"
sha2 = "=0.10.9"
tokio = { version = "=1.54.1", features = ["full"] }
tokio-rustls = { version = "=0.26.6", default-features = false, features = ["ring", "tls12", "logging"] }
tokio-tungstenite = "=0.30.0"
tracing = "=0.1.44"

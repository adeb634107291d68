[package]
name = "kutil_http"
version = "0.1.0"
edition = "2021"
publish = false

[dependencies]
http = "1"
http-body = "1"
bytes = "1"
httpdate = "1"
duration-str = "0.17"
base64-simd = "0.8"
url = "2"
urlencoding = "2"
tower = { version = "0.5", features = ["util"] }
tower-http = { version = "0.6", features = ["fs"] }
tokio = { version = "1", features = ["io-util", "sync", "rt", "signal", "macros"] }
tokio-util = { version = "0.7", features = ["io"] }
moka = { version = "0.12", features = ["future"] }
async-compression = { version = "0.4", features = ["tokio", "brotli", "gzip", "deflate", "zstd"] }
pin-project = "1"
tracing = "0.1"
thiserror = "2"
rustls = "0.23"
aws-lc-rs = "1"
rustls-acme = "0.13"
axum = "0.8"
axum-extra = "0.10"
axum-server = "0.7"

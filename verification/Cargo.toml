[package]
name = "sgx-qkms"
version = "0.1.0"
edition = "2021"
publish = false

[dependencies]
http = "1"
httparse = "1"
percent-encoding = "2"
serde = { version = "1", features = ["derive"] }
serde_json = "1"
rustls = "0.23"
rustls-pemfile = "2"
rustls-mbedcrypto-provider = "*"
tokio = { version = "1", features = ["full"] }
tokio-rustls = "0.26"
async-trait = "0.1"
swagger = "*"
uuid = "1"

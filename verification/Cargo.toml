[package]
name = "desire"
version = "0.1.0"
edition = "2021"
publish = false

[dependencies]
matchit = "0.8"
cookie = "0.18"
mime_guess = "2"
httpdate = "1"
serde_json = "1"
serde = { version = "1", features = ["derive"] }
serde_urlencoded = "0.7"
hyper = { version = "1", features = ["full"] }
hyper-util = { version = "0.1", features = ["full"] }
http-body = "1"
http-body-util = "0.1"
bytes = "1"
tokio = { version = "1", features = ["full"] }
tracing = "0.1"
futures-core = "0.3"
tokio-stream = "0.1"
tokio-util = { version = "0.7", features = ["io"] }
async-compression = { version = "0.4", features = ["tokio", "gzip"] }
schemars = "0.8"
rustls = { version = "0.23", default-features = false, features = ["ring", "std", "tls12"] }
tokio-rustls = { version = "0.26", default-features = false, features = ["ring", "tls12"] }
rustls-pemfile = "2"
tokio-tungstenite = "0.24"

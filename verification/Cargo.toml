[package]
name = "http_serve"
version = "0.1.0"
edition = "2021"
publish = false

[dependencies]
bytes = "=1.12.1"
http-body-util = "=0.1.5"
hyper = { version = "=1.12.0", features = ["server", "http1"] }
hyper-util = { version = "=0.1.21", features = ["tokio"] }
nu-plugin = "=0.114.1"
nu-protocol = "=0.114.1"
tokio = { version = "=1.53.2", features = ["rt-multi-thread", "net", "sync", "macros", "time"] }
tokio-stream = "=0.1.19"

[package]
name = "rask"
version = "0.1.0"
edition = "2021"
publish = false

[dependencies]
cookie = { version = "=0.18.2", features = ["private", "key-expansion"] }
multimap = "=0.10.1"
hyper = { version = "=1.12.0", features = ["server", "http1"] }
hyper-util = { version = "=0.1.21", features = ["tokio"] }
http-body-util = "=0.1.5"
tokio = { version = "=1.53.2", features = ["rt", "net", "io-util", "macros"] }

[package]
name = "disklog"
version = "0.1.0"
edition = "2021"
publish = false

[dependencies]
bytes = "1"
futures = "0.3"
hyper = { version = "0.14", features = ["server", "http1", "tcp", "stream", "runtime"] }
tokio = { version = "1", features = ["fs", "io-util", "macros", "rt-multi-thread", "sync"] }

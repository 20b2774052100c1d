[package]
name = "t2sdk"
version = "0.1.0"
edition = "2021"
publish = false

[dependencies]
dashmap = "6"
encoding = "0.2"
libc = "0.2"
napi = { version = "2", default-features = false, features = ["napi4", "tokio_rt"] }
napi-derive = "2"
serde_json = "1"
tokio = { version = "1", features = ["rt", "sync", "time"] }

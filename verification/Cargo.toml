[package]
name = "fasttime"
version = "0.1.0"
edition = "2021"
publish = false

[dependencies]
hyper = { version = "=0.14.32", default-features = false, features = ["http1", "server", "client", "tcp"] }
user-agent-parser = "=0.5.0"
wasmtime = "=48.0.5"
wasmtime-wasi = "=48.0.5"
tokio = { version = "1", features = ["rt-multi-thread", "net", "macros"] }
serde = { version = "1", features = ["derive"] }
serde_json = "1"
futures-executor = "*"
bytes = "1"

[dev-dependencies]
fastly-shared = "=0.6.3"

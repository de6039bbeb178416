[package]
name = "portunus"
version = "0.1.0"
edition = "2021"
publish = false

[dependencies]
async-trait = "=0.1.92"
dashmap = "=6.2.1"
futures-util = "=0.3.34"
libc = "=0.2.191"
prost = "0.14"
thiserror = "=2.0.21"
tokio = { version = "=1.54.1", features = ["full", "test-util"] }
tokio-util = "=0.7.20"
tracing = "=0.1.44"

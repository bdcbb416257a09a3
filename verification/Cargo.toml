[package]
name = "corgi"
version = "0.1.0"
edition = "2021"
publish = false

[dependencies]
bytes = "=1.12.1"
futures = "=0.3.34"
proc-macro2 = "=1.0.107"
quote = "=1.0.47"
syn = { version = "=2.0.119", features = ["full"] }
tokio = { version = "=1.54.1", features = ["net"] }
tracing = "=0.1.44"
wincode = "=0.2.5"

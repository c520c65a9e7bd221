[package]
name = "cruspy"
version = "0.1.0"
edition = "2021"
publish = false

[dependencies]
talc = { version = "=5.1.1", features = ["counters"] }
thiserror = "=2.0.21"
pyo3 = "=0.23.5"
pyo3-async-runtimes = { version = "=0.23.0", features = ["tokio-runtime"] }
tokio = { version = "=1.54.1", features = ["rt-multi-thread"] }
cxx = "=1.0.205"
ctor = "=0.2.9"
paste = "=1.0.15"

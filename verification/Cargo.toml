[package]
name = "ruback"
version = "0.1.0"
edition = "2021"

[dependencies]
backtrace = "0.3"
croaring = "*"
libc = "0.2"
pprof = { version = "*", features = ["flamegraph", "prost-codec"] }

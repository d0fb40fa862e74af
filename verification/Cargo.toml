[package]
name = "telemetry_safe"
version = "0.1.0"
edition = "2021"
publish = false

[dependencies]
tracing = "0.1"
syn = { version = "2", features = ["full", "extra-traits"] }
quote = "1"
proc-macro2 = "1"

[package]
name = "armature_metrics"
version = "0.2.3"
edition = "2021"
publish = false

[dependencies]
prometheus = { version = "=0.14.0", features = ["process"] }
once_cell = "=1.21.4"
tracing = "=0.1.44"
